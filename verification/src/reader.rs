use vstd::prelude::*;

use crate::error::DumpError;

verus! {

/// A cursor over an in-memory byte stream.
///
/// The decoders only need sequential, fallible reads, so the whole dump is
/// handed over as one byte vector and the cursor advances through it.
pub struct Reader {
    data: Vec<u8>,
    pos: usize,
}

impl Reader {
    /// The underlying bytes.
    pub closed spec fn bytes(&self) -> Seq<u8> {
        self.data@
    }

    /// The cursor position.
    pub closed spec fn cursor(&self) -> int {
        self.pos as int
    }

    /// The cursor never passes the end of the data.
    pub closed spec fn wf(&self) -> bool {
        self.pos <= self.data@.len()
    }

    pub fn new(data: Vec<u8>) -> (r: Reader)
        ensures
            r.wf(),
            r.bytes() == data@,
            r.cursor() == 0,
    {
        Reader { data, pos: 0 }
    }
}

/// The little-endian 16-bit word at position `p`.
pub open spec fn le16_at(s: Seq<u8>, p: int) -> u16 {
    (s[p] + s[p + 1] * 0x100) as u16
}

/// The little-endian 32-bit word at position `p`.
pub open spec fn le32_at(s: Seq<u8>, p: int) -> u32 {
    (s[p] + s[p + 1] * 0x100 + s[p + 2] * 0x10000 + s[p + 3] * 0x1000000) as u32
}

/// Reading a 16-bit signed integer at `p`: two bytes, or truncation.
pub open spec fn sp_read_i16(s: Seq<u8>, p: int) -> Result<(i16, int), DumpError> {
    if p + 2 <= s.len() {
        Ok((le16_at(s, p) as i16, p + 2))
    } else {
        Err(DumpError::Truncation)
    }
}

/// Reading a 32-bit unsigned integer at `p`: four bytes, or truncation.
pub open spec fn sp_read_u32(s: Seq<u8>, p: int) -> Result<(u32, int), DumpError> {
    if p + 4 <= s.len() {
        Ok((le32_at(s, p), p + 4))
    } else {
        Err(DumpError::Truncation)
    }
}

/// Reading a 32-bit signed integer at `p`: four bytes, or truncation.
pub open spec fn sp_read_i32(s: Seq<u8>, p: int) -> Result<(i32, int), DumpError> {
    if p + 4 <= s.len() {
        Ok((le32_at(s, p) as i32, p + 4))
    } else {
        Err(DumpError::Truncation)
    }
}

/// The first position at or after `p` holding the byte `term`, if any.
pub open spec fn find_term(s: Seq<u8>, p: int, term: u8) -> Option<int>
    decreases s.len() - p,
{
    if p < 0 || p >= s.len() {
        None
    } else if s[p] == term {
        Some(p)
    } else {
        find_term(s, p + 1, term)
    }
}

/// Whether a byte sequence is valid UTF-8. What the encoding accepts takes
/// pages to state, so the predicate is left abstract and tied to
/// `core::str::from_utf8` by the trusted checker below.
pub uninterp spec fn utf8_valid(s: Seq<u8>) -> bool;

/// Relies on `core::str::from_utf8`: whether bytes are valid UTF-8 depends on
/// the bytes alone, and the encoding's documentation states that bytes below
/// 128 are ASCII and always valid.
#[verifier::external_body]
fn check_utf8(bytes: &Vec<u8>) -> (r: bool)
    ensures
        r == utf8_valid(bytes@),
        (forall|i: int| 0 <= i < bytes@.len() ==> bytes@[i] < 128) ==> r,
{
    core::str::from_utf8(bytes.as_slice()).is_ok()
}

/// Reading a `term`-terminated string at `p`: the bytes before the first
/// terminator (which is consumed but not returned). The stream ending before
/// a terminator is truncation; bytes that are not valid UTF-8 are an
/// encoding error.
pub open spec fn sp_read_string(s: Seq<u8>, p: int, term: u8) -> Result<(Seq<u8>, int), DumpError> {
    match find_term(s, p, term) {
        Option::None => Err(DumpError::Truncation),
        Option::Some(t) => {
            let body = s.subrange(p, t);
            if utf8_valid(body) {
                Ok((body, t + 1))
            } else {
                Err(DumpError::Encoding)
            }
        },
    }
}

/// Reads two bytes as a native-order (little-endian) signed 16-bit integer.
pub fn read_i16(r: &mut Reader) -> (res: Result<i16, DumpError>)
    requires
        old(r).wf(),
    ensures
        final(r).wf(),
        final(r).bytes() == old(r).bytes(),
        match sp_read_i16(old(r).bytes(), old(r).cursor()) {
            Ok(vp) => res == Ok::<i16, DumpError>(vp.0) && final(r).cursor() == vp.1,
            Err(e) => res == Err::<i16, DumpError>(e) && final(r).cursor() == old(r).cursor(),
        },
{
    if r.data.len() - r.pos >= 2 {
        let b0: u8 = r.data[r.pos];
        let b1: u8 = r.data[r.pos + 1];
        let v: u16 = (b0 as u16) + (b1 as u16) * 0x100;
        r.pos = r.pos + 2;
        assert(v == le16_at(r.bytes(), old(r).cursor()));
        Ok(v as i16)
    } else {
        Err(DumpError::Truncation)
    }
}

/// Reads four bytes as a native-order (little-endian) unsigned 32-bit integer.
pub fn read_u32(r: &mut Reader) -> (res: Result<u32, DumpError>)
    requires
        old(r).wf(),
    ensures
        final(r).wf(),
        final(r).bytes() == old(r).bytes(),
        match sp_read_u32(old(r).bytes(), old(r).cursor()) {
            Ok(vp) => res == Ok::<u32, DumpError>(vp.0) && final(r).cursor() == vp.1,
            Err(e) => res == Err::<u32, DumpError>(e) && final(r).cursor() == old(r).cursor(),
        },
{
    if r.data.len() - r.pos >= 4 {
        let b0: u8 = r.data[r.pos];
        let b1: u8 = r.data[r.pos + 1];
        let b2: u8 = r.data[r.pos + 2];
        let b3: u8 = r.data[r.pos + 3];
        let v: u32 = (b0 as u32) + (b1 as u32) * 0x100 + (b2 as u32) * 0x10000 + (b3 as u32)
            * 0x1000000;
        r.pos = r.pos + 4;
        assert(v == le32_at(r.bytes(), old(r).cursor()));
        Ok(v)
    } else {
        Err(DumpError::Truncation)
    }
}

/// Reads four bytes as a native-order (little-endian) signed 32-bit integer.
pub fn read_i32(r: &mut Reader) -> (res: Result<i32, DumpError>)
    requires
        old(r).wf(),
    ensures
        final(r).wf(),
        final(r).bytes() == old(r).bytes(),
        match sp_read_i32(old(r).bytes(), old(r).cursor()) {
            Ok(vp) => res == Ok::<i32, DumpError>(vp.0) && final(r).cursor() == vp.1,
            Err(e) => res == Err::<i32, DumpError>(e) && final(r).cursor() == old(r).cursor(),
        },
{
    let v = read_u32(r);
    match v {
        Ok(v) => Ok(v as i32),
        Err(e) => Err(e),
    }
}

/// Reads four bytes as the bit pattern of an IEEE 754 single-precision value.
/// The bits are never interpreted by the decoders, so the read is the same as
/// an unsigned 32-bit read.
pub fn read_float_bits(r: &mut Reader) -> (res: Result<u32, DumpError>)
    requires
        old(r).wf(),
    ensures
        final(r).wf(),
        final(r).bytes() == old(r).bytes(),
        match sp_read_u32(old(r).bytes(), old(r).cursor()) {
            Ok(vp) => res == Ok::<u32, DumpError>(vp.0) && final(r).cursor() == vp.1,
            Err(e) => res == Err::<u32, DumpError>(e) && final(r).cursor() == old(r).cursor(),
        },
{
    read_u32(r)
}

/// Reads bytes until `term` is seen; the terminator is consumed and not
/// returned. Both wire string conventions (null-terminated field strings and
/// the newline-terminated header line) are this one primitive.
pub fn read_terminated(r: &mut Reader, term: u8) -> (res: Result<Vec<u8>, DumpError>)
    requires
        old(r).wf(),
    ensures
        final(r).wf(),
        final(r).bytes() == old(r).bytes(),
        match sp_read_string(old(r).bytes(), old(r).cursor(), term) {
            Ok(vp) => res matches Ok(v) && v@ == vp.0 && final(r).cursor() == vp.1,
            Err(e) => res == Err::<Vec<u8>, DumpError>(e),
        },
{
    let ghost s = r.bytes();
    let ghost p0 = r.cursor();
    let mut i: usize = r.pos;
    while i < r.data.len() && r.data[i] != term
        invariant
            r.pos <= i <= r.data@.len(),
            r == old(r),
            find_term(s, p0, term) == find_term(s, i as int, term),
            s == r.bytes(),
            p0 == r.cursor(),
        decreases r.data@.len() - i,
    {
        assert(find_term(s, i as int, term) == find_term(s, i + 1, term));
        i += 1;
    }
    if i == r.data.len() {
        assert(find_term(s, p0, term) is None);
        return Err(DumpError::Truncation);
    }
    assert(find_term(s, p0, term) == Some(i as int));
    let mut body: Vec<u8> = Vec::new();
    let mut j: usize = r.pos;
    while j < i
        invariant
            r.pos <= j <= i < r.data@.len(),
            r == old(r),
            s == r.bytes(),
            p0 == r.cursor(),
            body@ == s.subrange(p0, j as int),
        decreases i - j,
    {
        let b: u8 = r.data[j];
        body.push(b);
        j += 1;
        assert(body@ =~= s.subrange(p0, j as int));
    }
    if check_utf8(&body) {
        r.pos = i + 1;
        Ok(body)
    } else {
        Err(DumpError::Encoding)
    }
}

/// Reads a null-terminated field string: bone names, the skeleton name,
/// float-channel names.
pub fn read_string(r: &mut Reader) -> (res: Result<Vec<u8>, DumpError>)
    requires
        old(r).wf(),
    ensures
        final(r).wf(),
        final(r).bytes() == old(r).bytes(),
        match sp_read_string(old(r).bytes(), old(r).cursor(), 0) {
            Ok(vp) => res matches Ok(v) && v@ == vp.0 && final(r).cursor() == vp.1,
            Err(e) => res == Err::<Vec<u8>, DumpError>(e),
        },
{
    read_terminated(r, 0)
}

/// Reads the newline-terminated free-text header line that leads a record.
pub fn read_header(r: &mut Reader) -> (res: Result<Vec<u8>, DumpError>)
    requires
        old(r).wf(),
    ensures
        final(r).wf(),
        final(r).bytes() == old(r).bytes(),
        match sp_read_string(old(r).bytes(), old(r).cursor(), 10) {
            Ok(vp) => res matches Ok(v) && v@ == vp.0 && final(r).cursor() == vp.1,
            Err(e) => res == Err::<Vec<u8>, DumpError>(e),
        },
{
    read_terminated(r, 10)
}

} // verus!
