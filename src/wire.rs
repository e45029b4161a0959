//! Byte-level building blocks of the wire format: big-endian integers,
//! section separators, frame headers and UTF-8 text.
use vstd::prelude::*;
use vstd::utf8::*;

verus! {

/// Byte that separates the sections of a payload.
pub const SEPARATOR_BYTE: u8 = 0x1F;

/// Byte of `':'`, which joins the module and the id of an event name.
pub const COLON_BYTE: u8 = 0x3A;

/// Number of bytes before a frame's payload: the kind byte and the length.
pub const FRAME_HEADER_LEN: usize = 5;

/// The character whose UTF-8 encoding is the separator byte.
pub open spec fn separator_char() -> char {
    '\u{1f}'
}

/// Big-endian bytes of a 16-bit value.
pub open spec fn be16(v: u16) -> Seq<u8> {
    seq![(v / 256) as u8, (v % 256) as u8]
}

/// Big-endian bytes of a 32-bit value.
pub open spec fn be32(v: u32) -> Seq<u8> {
    seq![(v / 0x100_0000) as u8, ((v / 0x1_0000) % 256) as u8, ((v / 256) % 256) as u8, (v % 256) as u8]
}

/// The number that four big-endian bytes stand for.
pub open spec fn be32_value(b: Seq<u8>) -> int {
    b[0] as int * 0x100_0000 + b[1] as int * 0x1_0000 + b[2] as int * 256 + b[3] as int
}

/// A whole frame: kind byte, payload length in four big-endian bytes, payload.
pub open spec fn frame_bytes(start: u8, payload: Seq<u8>) -> Seq<u8> {
    seq![start] + be32(payload.len() as u32) + payload
}

/// `b` has the shape of a frame of kind `start`: its length field counts
/// exactly the bytes that follow the header.
pub open spec fn frame_ok(b: Seq<u8>, start: u8) -> bool {
    &&& b.len() >= 5
    &&& b[0] == start
    &&& be32_value(b.subrange(1, 5)) == b.len() - 5
}

/// The payload of a frame.
pub open spec fn frame_payload(b: Seq<u8>) -> Seq<u8> {
    b.subrange(5, b.len() as int)
}

/// `i` and `j` are the first and the second separator of `p`.
pub open spec fn separators_at(p: Seq<u8>, i: int, j: int) -> bool {
    &&& 0 <= i < j < p.len()
    &&& p[i] == SEPARATOR_BYTE
    &&& p[j] == SEPARATOR_BYTE
    &&& !p.subrange(0, i).contains(SEPARATOR_BYTE)
    &&& !p.subrange(i + 1, j).contains(SEPARATOR_BYTE)
}

/// `p` holds at least two separators, so it splits into three sections.
pub open spec fn has_sections(p: Seq<u8>) -> bool {
    exists|i: int, j: int| separators_at(p, i, j)
}

/// Positions of the first two separators of `p`.
pub open spec fn sections(p: Seq<u8>) -> (int, int)
    recommends
        has_sections(p),
{
    choose|i: int, j: int| separators_at(p, i, j)
}

/// The first two separators of a payload are found at one place only.
pub proof fn lemma_sections_unique(p: Seq<u8>, i: int, j: int)
    requires
        separators_at(p, i, j),
    ensures
        has_sections(p),
        sections(p) == (i, j),
{
    let (a, b) = sections(p);
    assert(separators_at(p, a, b));
    if a < i {
        assert(p.subrange(0, i)[a] == SEPARATOR_BYTE);
    } else if i < a {
        assert(p.subrange(0, a)[i] == SEPARATOR_BYTE);
    }
    if b < j {
        assert(p.subrange(i + 1, j)[b - i - 1] == SEPARATOR_BYTE);
    } else if j < b {
        assert(p.subrange(a + 1, b)[j - a - 1] == SEPARATOR_BYTE);
    }
}

/// Three sections joined by separators are found again where they were put,
/// when the first two hold no separator.
pub proof fn lemma_sections_of_join(x: Seq<u8>, y: Seq<u8>, z: Seq<u8>)
    requires
        !x.contains(SEPARATOR_BYTE),
        !y.contains(SEPARATOR_BYTE),
    ensures
        has_sections(x + seq![SEPARATOR_BYTE] + y + seq![SEPARATOR_BYTE] + z),
        sections(x + seq![SEPARATOR_BYTE] + y + seq![SEPARATOR_BYTE] + z) == (
            x.len() as int,
            x.len() + 1 + y.len() as int,
        ),
{
    let p = x + seq![SEPARATOR_BYTE] + y + seq![SEPARATOR_BYTE] + z;
    let i = x.len() as int;
    let j = x.len() + 1 + y.len() as int;
    assert(p.subrange(0, i) =~= x);
    assert(p.subrange(i + 1, j) =~= y);
    lemma_sections_unique(p, i, j);
}

/// A joined sequence splits back into its parts at the first `sep`, when the
/// first part holds none.
pub proof fn lemma_split_unique(x1: Seq<u8>, y1: Seq<u8>, x2: Seq<u8>, y2: Seq<u8>, sep: u8)
    requires
        x1 + seq![sep] + y1 == x2 + seq![sep] + y2,
        !x1.contains(sep),
        !x2.contains(sep),
    ensures
        x1 == x2,
        y1 == y2,
{
    let s = x1 + seq![sep] + y1;
    if x1.len() < x2.len() {
        assert(x2[x1.len() as int] == s[x1.len() as int]);
    } else if x2.len() < x1.len() {
        assert(x1[x2.len() as int] == s[x2.len() as int]);
    }
    assert(x1 =~= s.subrange(0, x1.len() as int));
    assert(x2 =~= s.subrange(0, x2.len() as int));
    assert(y1 =~= s.subrange(x1.len() as int + 1, s.len() as int));
    assert(y2 =~= s.subrange(x2.len() as int + 1, s.len() as int));
}

/// Distinct 16-bit values have distinct big-endian bytes.
pub proof fn lemma_be16_injective(a: u16, b: u16)
    requires
        be16(a) == be16(b),
    ensures
        a == b,
{
    assert(be16(a)[0] == be16(b)[0]);
    assert(be16(a)[1] == be16(b)[1]);
}

/// The big-endian bytes of a 32-bit value read back as that value.
pub proof fn lemma_be32_value(v: u32)
    ensures
        be32_value(be32(v)) == v,
{
    let x = v as int;
    let q1 = x / 256;
    let q2 = x / 0x1_0000;
    let q3 = x / 0x100_0000;
    assert(q2 == q1 / 256) by {
        vstd::arithmetic::div_mod::lemma_div_denominator(x, 256, 256);
    }
    assert(q3 == q2 / 256) by {
        vstd::arithmetic::div_mod::lemma_div_denominator(x, 0x1_0000, 256);
    }
    assert(q3 < 256);
}

/// Four bytes are the big-endian bytes of the value they stand for.
pub proof fn lemma_be32_bytes(x: Seq<u8>)
    requires
        x.len() == 4,
    ensures
        0 <= be32_value(x) <= u32::MAX,
        be32(be32_value(x) as u32) == x,
{
    let v = be32_value(x);
    let (x0, x1, x2, x3) = (x[0] as int, x[1] as int, x[2] as int, x[3] as int);
    assert(0 <= v <= u32::MAX);
    assert(v / 0x100_0000 == x0) by (nonlinear_arith)
        requires v == x0 * 0x100_0000 + x1 * 0x1_0000 + x2 * 256 + x3, 0 <= x0 < 256, 0 <= x1 < 256, 0 <= x2 < 256, 0 <= x3 < 256;
    assert((v / 0x1_0000) % 256 == x1) by (nonlinear_arith)
        requires v == x0 * 0x100_0000 + x1 * 0x1_0000 + x2 * 256 + x3, 0 <= x0 < 256, 0 <= x1 < 256, 0 <= x2 < 256, 0 <= x3 < 256;
    assert((v / 256) % 256 == x2) by (nonlinear_arith)
        requires v == x0 * 0x100_0000 + x1 * 0x1_0000 + x2 * 256 + x3, 0 <= x0 < 256, 0 <= x1 < 256, 0 <= x2 < 256, 0 <= x3 < 256;
    assert(v % 256 == x3) by (nonlinear_arith)
        requires v == x0 * 0x100_0000 + x1 * 0x1_0000 + x2 * 256 + x3, 0 <= x0 < 256, 0 <= x1 < 256, 0 <= x2 < 256, 0 <= x3 < 256;
    assert(be32(v as u32) =~= x);
}

/// A frame built from a payload that fits the length field carries that
/// payload's length at offset 1.
pub proof fn lemma_frame_length(start: u8, payload: Seq<u8>)
    requires
        payload.len() <= u32::MAX,
    ensures
        frame_bytes(start, payload).len() == payload.len() + 5,
        be32_value(frame_bytes(start, payload).subrange(1, 5)) == payload.len(),
        frame_ok(frame_bytes(start, payload), start),
        frame_payload(frame_bytes(start, payload)) == payload,
{
    let f = frame_bytes(start, payload);
    lemma_be32_value(payload.len() as u32);
    assert(f.subrange(1, 5) =~= be32(payload.len() as u32));
    assert(frame_payload(f) =~= payload);
}

/// A frame that has the right shape is the frame of its payload.
pub proof fn lemma_frame_of_payload(b: Seq<u8>, start: u8)
    requires
        frame_ok(b, start),
    ensures
        frame_bytes(start, frame_payload(b)) == b,
{
    lemma_be32_bytes(b.subrange(1, 5));
    assert(frame_bytes(start, frame_payload(b)) =~= b);
}

/// An ASCII character occurs in a text exactly when its byte occurs in the
/// text's UTF-8 encoding.
pub proof fn lemma_ascii_in_utf8(s: Seq<char>, c: char)
    requires
        (c as u32) < 0x80,
    ensures
        encode_utf8(s).contains(c as u8) <==> s.contains(c),
    decreases s.len(),
{
    if s.len() > 0 {
        let rest = s.drop_first();
        lemma_ascii_in_utf8(rest, c);
        let first = encode_scalar(s[0] as u32);
        let e = encode_utf8(s);
        assert(e == first + encode_utf8(rest));
        lemma_ascii_in_scalar(s[0], c);
        if s.contains(c) {
            let k = choose|k: int| 0 <= k < s.len() && s[k] == c;
            if k == 0 {
                assert(e[0] == first[0]);
            } else {
                assert(rest[k - 1] == c);
                let m = choose|m: int| 0 <= m < encode_utf8(rest).len() && encode_utf8(rest)[m] == c as u8;
                assert(e[first.len() + m] == c as u8);
            }
        }
        if e.contains(c as u8) {
            let m = choose|m: int| 0 <= m < e.len() && e[m] == c as u8;
            if m < first.len() {
                assert(first[m] == c as u8);
                assert(s[0] == c);
            } else {
                assert(encode_utf8(rest)[m - first.len()] == c as u8);
                let k = choose|k: int| 0 <= k < rest.len() && rest[k] == c;
                assert(s[k + 1] == c);
            }
        }
    }
}

/// A single ASCII byte is valid UTF-8.
pub proof fn lemma_ascii_byte_valid(b: u8)
    requires
        b < 0x80,
    ensures
        valid_utf8(seq![b]),
{
    let s = seq![b];
    assert(leading_bits_width_1(b) < 0x80) by (bit_vector)
        requires b < 0x80;
    assert(pop_first_scalar(s) =~= Seq::<u8>::empty());
    reveal_with_fuel(valid_utf8, 2);
}

proof fn lemma_ascii_in_scalar(x: char, c: char)
    requires
        (c as u32) < 0x80,
    ensures
        encode_scalar(x as u32).contains(c as u8) <==> x == c,
{
    let v = x as u32;
    let e = encode_scalar(v);
    char_is_scalar(x);
    if has_width_1_encoding(v) {
        assert(leading_byte_width_1(v) as u32 == v) by (bit_vector)
            requires v <= 0x7f;
        assert(e[0] == leading_byte_width_1(v));
        if x == c {
            assert(e[0] == c as u8);
        }
        if e.contains(c as u8) {
            assert(e[0] == c as u8);
            char_u32_cast(x, v);
            char_u32_cast(c, c as u32);
        }
    } else {
        assert forall|y: u32| #![auto] leading_byte_width_2(y) >= 0x80 && leading_byte_width_3(y) >= 0x80
            && leading_byte_width_4(y) >= 0x80 && last_continuation_byte(y) >= 0x80
            && second_last_continuation_byte(y) >= 0x80 && third_last_continuation_byte(y) >= 0x80 by {
            assert(0xC0u8 | ((y >> 6) & 0x1F) as u8 >= 0x80) by (bit_vector);
            assert(0xE0u8 | ((y >> 12) & 0x0F) as u8 >= 0x80) by (bit_vector);
            assert(0xF0u8 | ((y >> 18) & 0x7) as u8 >= 0x80) by (bit_vector);
            assert(0x80u8 | (y & 0x3F) as u8 >= 0x80) by (bit_vector);
            assert(0x80u8 | ((y >> 6) & 0x3F) as u8 >= 0x80) by (bit_vector);
            assert(0x80u8 | ((y >> 12) & 0x3F) as u8 >= 0x80) by (bit_vector);
        }
        assert forall|m: int| 0 <= m < e.len() implies e[m] >= 0x80 by {}
    }
}

/// Text of a byte sequence when it is valid UTF-8.
///
/// Relies on `std::str::from_utf8`: it succeeds exactly on valid UTF-8, and the
/// text it returns is made of exactly the given bytes.
#[verifier::external_body]
pub fn utf8_text(b: &[u8]) -> (r: Result<&str, std::str::Utf8Error>)
    ensures
        r is Ok <==> valid_utf8(b@),
        r matches Ok(s) ==> s@ == decode_utf8(b@),
{
    std::str::from_utf8(b)
}

/// `std::str::Utf8Error`, carried through unchanged.
#[verifier::external_type_specification]
#[verifier::external_body]
pub struct ExUtf8Error(std::str::Utf8Error);

/// Writes `v` in network byte order at the end of `out`.
pub fn push_be16(out: &mut Vec<u8>, v: u16)
    ensures
        final(out)@ == old(out)@ + be16(v),
{
    out.push((v / 256) as u8);
    out.push((v % 256) as u8);
    assert(out@ =~= old(out)@ + be16(v));
}

/// Writes `v` in network byte order at the end of `out`.
pub fn push_be32(out: &mut Vec<u8>, v: u32)
    ensures
        final(out)@ == old(out)@ + be32(v),
{
    out.push((v / 0x100_0000) as u8);
    out.push(((v / 0x1_0000) % 256) as u8);
    out.push(((v / 256) % 256) as u8);
    out.push((v % 256) as u8);
    assert(out@ =~= old(out)@ + be32(v));
}

/// Reads the 16-bit big-endian value at `at`.
pub fn read_be16(b: &[u8], at: usize) -> (r: u16)
    requires
        at + 2 <= b@.len(),
    ensures
        be16(r) == b@.subrange(at as int, at + 2),
{
    let r = (b[at] as u16) * 256 + (b[at + 1] as u16);
    assert(be16(r) =~= b@.subrange(at as int, at + 2));
    r
}

/// Reads the 32-bit big-endian value at `at`.
pub fn read_be32(b: &[u8], at: usize) -> (r: u64)
    requires
        at + 4 <= b@.len(),
    ensures
        r == be32_value(b@.subrange(at as int, at + 4)),
{
    (b[at] as u64) * 0x100_0000 + (b[at + 1] as u64) * 0x1_0000 + (b[at + 2] as u64) * 256 + (
    b[at + 3] as u64)
}

/// Appends the bytes of `b` to `out`.
pub fn append_bytes(out: &mut Vec<u8>, b: &[u8])
    ensures
        final(out)@ == old(out)@ + b@,
{
    let mut k: usize = 0;
    while k < b.len()
        invariant
            k <= b@.len(),
            out@ == old(out)@ + b@.subrange(0, k as int),
        decreases b@.len() - k,
    {
        out.push(b[k]);
        k = k + 1;
        assert(out@ =~= old(out)@ + b@.subrange(0, k as int));
    }
    assert(b@.subrange(0, k as int) =~= b@);
}

/// Position of the first `x` in `b` at or after `from`.
pub fn find_byte(b: &[u8], from: usize, x: u8) -> (r: Option<usize>)
    requires
        from <= b@.len(),
    ensures
        r matches Some(i) ==> from <= i < b@.len() && b@[i as int] == x && !b@.subrange(
            from as int,
            i as int,
        ).contains(x),
        r is None ==> !b@.subrange(from as int, b@.len() as int).contains(x),
{
    let mut k: usize = from;
    while k < b.len()
        invariant
            from <= k <= b@.len(),
            !b@.subrange(from as int, k as int).contains(x),
        decreases b@.len() - k,
    {
        if b[k] == x {
            return Some(k);
        }
        assert(b@.subrange(from as int, k + 1) =~= b@.subrange(from as int, k as int).push(b@[k as int]));
        k = k + 1;
    }
    None
}

/// Positions of the first two separators of a payload, if it has two.
pub fn payload_sections(p: &[u8]) -> (r: Option<(usize, usize)>)
    ensures
        r is Some <==> has_sections(p@),
        r matches Some((i, j)) ==> sections(p@) == (i as int, j as int) && separators_at(
            p@,
            i as int,
            j as int,
        ),
{
    let i = match find_byte(p, 0, SEPARATOR_BYTE) {
        Some(i) => i,
        None => {
            proof {
                assert(p@.subrange(0, p@.len() as int) =~= p@);
                if has_sections(p@) {
                    let (x, y) = sections(p@);
                    assert(p@[x] == SEPARATOR_BYTE);
                }
            }
            return None;
        },
    };
    let n = p.len();
    assert(i < n);
    let j = match find_byte(p, i + 1, SEPARATOR_BYTE) {
        Some(j) => j,
        None => {
            proof {
                if has_sections(p@) {
                    let (x, y) = sections(p@);
                    if x < i {
                        assert(p@.subrange(0, i as int)[x] == SEPARATOR_BYTE);
                    } else if i < x {
                        assert(p@.subrange(0, x)[i as int] == SEPARATOR_BYTE);
                    }
                    assert(p@.subrange(i + 1, p@.len() as int)[y - i - 1] == SEPARATOR_BYTE);
                }
            }
            return None;
        },
    };
    proof {
        lemma_sections_unique(p@, i as int, j as int);
    }
    Some((i, j))
}

/// The frame of kind `start` that carries `payload`.
pub fn frame_of(start: u8, payload: &Vec<u8>) -> (r: Vec<u8>)
    requires
        payload@.len() <= u32::MAX,
    ensures
        r@ == frame_bytes(start, payload@),
{
    let mut out: Vec<u8> = Vec::new();
    out.push(start);
    push_be32(&mut out, payload.len() as u32);
    append_bytes(&mut out, payload.as_slice());
    assert(out@ =~= frame_bytes(start, payload@));
    out
}

/// Length of the first complete frame at the start of `buf`, once its
/// header and all of its payload have arrived.
pub fn complete_frame_len(buf: &[u8]) -> (r: Option<usize>)
    ensures
        r matches Some(n) ==> buf@.len() >= 5 && n == 5 + be32_value(buf@.subrange(1, 5)) && n
            <= buf@.len(),
        r is None ==> buf@.len() < 5 || buf@.len() < 5 + be32_value(buf@.subrange(1, 5)),
{
    if buf.len() < FRAME_HEADER_LEN {
        return None;
    }
    let len = read_be32(buf, 1);
    if len <= (buf.len() - FRAME_HEADER_LEN) as u64 {
        Some(len as usize + FRAME_HEADER_LEN)
    } else {
        None
    }
}

} // verus!
