//! The chunk layer of the container: big-endian 32-bit fields, 4-byte type
//! tags and their classification bits, one chunk's framing, and a cursor
//! that walks the chunk stream without copying payload bytes.

use vstd::prelude::*;

use crate::DecodeError;

verus! {

/// The unsigned value of four bytes read most-significant first.
pub open spec fn be32_of(b0: u8, b1: u8, b2: u8, b3: u8) -> u32 {
    (b0 * 0x100_0000 + b1 * 0x1_0000 + b2 * 0x100 + b3) as u32
}

/// Whether a byte is an ASCII letter.
pub open spec fn ascii_letter(b: u8) -> bool {
    (0x41 <= b <= 0x5A) || (0x61 <= b <= 0x7A)
}

/// Bit 5 of a tag's first byte: set means the chunk is ancillary (safely
/// ignorable when unrecognized), clear means it is critical.
pub open spec fn tag_ancillary(t: Seq<u8>) -> bool {
    t[0] & 0x20 != 0
}

pub open spec fn tag_critical(t: Seq<u8>) -> bool {
    !tag_ancillary(t)
}

/// Bit 5 of a tag's second byte: set means the tag is private.
pub open spec fn tag_private(t: Seq<u8>) -> bool {
    t[1] & 0x20 != 0
}

/// Bit 5 of a tag's third byte: reserved; a tag with it set is invalid.
pub open spec fn tag_reserved(t: Seq<u8>) -> bool {
    t[2] & 0x20 != 0
}

/// Bit 5 of a tag's fourth byte: set means the chunk is safe to copy.
pub open spec fn tag_safe_to_copy(t: Seq<u8>) -> bool {
    t[3] & 0x20 != 0
}

/// A tag is valid when all four bytes are ASCII letters and the reserved
/// bit is clear.
pub open spec fn tag_valid(t: Seq<u8>) -> bool {
    t.len() == 4 && ascii_letter(t[0]) && ascii_letter(t[1]) && ascii_letter(t[2])
        && ascii_letter(t[3]) && !tag_reserved(t)
}

/// The tag of the mandatory header chunk.
pub open spec fn tag_ihdr() -> Seq<u8> {
    seq![0x49u8, 0x48u8, 0x44u8, 0x52u8]
}

/// The tag of the palette chunk.
pub open spec fn tag_plte() -> Seq<u8> {
    seq![0x50u8, 0x4Cu8, 0x54u8, 0x45u8]
}

/// The tag of the data-bearing chunks.
pub open spec fn tag_idat() -> Seq<u8> {
    seq![0x49u8, 0x44u8, 0x41u8, 0x54u8]
}

/// The tag of the terminal chunk.
pub open spec fn tag_iend() -> Seq<u8> {
    seq![0x49u8, 0x45u8, 0x4Eu8, 0x44u8]
}

/// The mathematical shape of one parsed chunk.
pub struct ChunkModel {
    /// The declared payload length.
    pub len: nat,
    /// The four tag bytes.
    pub tag: Seq<u8>,
    /// The payload bytes.
    pub data: Seq<u8>,
    /// The stored checksum. It is exposed but never verified against the
    /// payload; rejecting on a mismatch would refuse accepted inputs.
    pub crc: u32,
}

/// A successfully parsed chunk occupies `12 + len` bytes of the stream,
/// so its framing lies within `s` and its length fits in 32 bits.
pub proof fn lemma_parse_chunk_bounds(s: Seq<u8>)
    requires
        parse_chunk(s) is Some,
    ensures
        12 + parse_chunk(s).unwrap().len <= s.len(),
        parse_chunk(s).unwrap().len < 0x1_0000_0000,
{
}

/// Parses the framing of the chunk that starts at the head of `s`:
/// 4-byte big-endian payload length, 4-byte tag, payload, 4-byte checksum.
/// `None` when fewer than 12 bytes remain, the declared payload does not
/// fit, or the tag is invalid.
pub open spec fn parse_chunk(s: Seq<u8>) -> Option<ChunkModel> {
    if s.len() < 12 {
        Option::None
    } else {
        let len = be32_of(s[0], s[1], s[2], s[3]) as int;
        let tag = s.subrange(4, 8);
        if !tag_valid(tag) {
            Option::None
        } else if s.len() < len + 12 {
            Option::None
        } else {
            Option::Some(
                ChunkModel {
                    len: len as nat,
                    tag,
                    data: s.subrange(8, 8 + len),
                    crc: be32_of(
                        s[8 + len],
                        s[8 + len + 1],
                        s[8 + len + 2],
                        s[8 + len + 3],
                    ),
                },
            )
        }
    }
}

/// A 4-byte big-endian unsigned 32-bit value.
#[derive(Debug, Clone, Copy, PartialEq, Eq)]
pub struct Be32([u8; 4]);

impl Be32 {
    /// The value the four stored bytes denote.
    pub closed spec fn spec_as_u32(&self) -> u32 {
        be32_of(self.0[0], self.0[1], self.0[2], self.0[3])
    }

    pub fn from_u32(value: u32) -> (res: Self)
        ensures
            res.spec_as_u32() == value,
    {
        let b0 = ((value >> 24) & 0xFF) as u8;
        let b1 = ((value >> 16) & 0xFF) as u8;
        let b2 = ((value >> 8) & 0xFF) as u8;
        let b3 = (value & 0xFF) as u8;
        proof {
            assert((value >> 24) & 0xFF < 256 && (value >> 16) & 0xFF < 256 && (value >> 8) & 0xFF
                < 256 && value & 0xFF < 256) by (bit_vector);
            assert(((value >> 24) & 0xFF) * 0x100_0000 + ((value >> 16) & 0xFF) * 0x1_0000 + ((
            value >> 8) & 0xFF) * 0x100 + (value & 0xFF) == value) by (bit_vector);
        }
        Be32([b0, b1, b2, b3])
    }

    pub fn as_u32(&self) -> (res: u32)
        ensures
            res == self.spec_as_u32(),
    {
        (self.0[0] as u32) * 0x100_0000 + (self.0[1] as u32) * 0x1_0000 + (self.0[2] as u32)
            * 0x100 + (self.0[3] as u32)
    }

    /// A value of this type is determined by the integer it denotes:
    /// base-256 digits are unique. With [`Be32::from_u32`]'s clause this
    /// makes the two conversions mutually inverse.
    pub proof fn lemma_as_u32_injective(a: Be32, b: Be32)
        requires
            a.spec_as_u32() == b.spec_as_u32(),
        ensures
            a == b,
    {
        assert(a.0[0] * 0x100_0000 + a.0[1] * 0x1_0000 + a.0[2] * 0x100 + a.0[3] == b.0[0]
            * 0x100_0000 + b.0[1] * 0x1_0000 + b.0[2] * 0x100 + b.0[3]);
        assert(a.0[0] == b.0[0] && a.0[1] == b.0[1] && a.0[2] == b.0[2] && a.0[3] == b.0[3]);
        assert(a.0 =~= b.0);
    }
}

/// A 4-byte ASCII chunk type tag.
#[derive(Debug, Clone, Copy, PartialEq, Eq)]
pub struct FourCC(pub [u8; 4]);

impl FourCC {
    /// Whether this tag equals the four given bytes.
    pub fn is_tag(&self, b0: u8, b1: u8, b2: u8, b3: u8) -> (res: bool)
        ensures
            res == (self.0@ == seq![b0, b1, b2, b3]),
    {
        let eq = self.0[0] == b0 && self.0[1] == b1 && self.0[2] == b2 && self.0[3] == b3;
        proof {
            if eq {
                assert(self.0@ =~= seq![b0, b1, b2, b3]);
            } else {
                if self.0@ == seq![b0, b1, b2, b3] {
                    assert(self.0@[0] == b0 && self.0@[1] == b1 && self.0@[2] == b2 && self.0@[3]
                        == b3);
                }
            }
        }
        eq
    }

    pub fn is_valid(&self) -> (res: bool)
        ensures
            res == tag_valid(self.0@),
    {
        is_ascii_letter(self.0[0]) && is_ascii_letter(self.0[1]) && is_ascii_letter(self.0[2])
            && is_ascii_letter(self.0[3]) && !self.is_reserved()
    }

    pub fn is_ancillary(&self) -> (res: bool)
        ensures
            res == tag_ancillary(self.0@),
    {
        self.0[0] & 0x20 != 0
    }

    pub fn is_critical(&self) -> (res: bool)
        ensures
            res == tag_critical(self.0@),
    {
        !self.is_ancillary()
    }

    pub fn is_private(&self) -> (res: bool)
        ensures
            res == tag_private(self.0@),
    {
        self.0[1] & 0x20 != 0
    }

    pub fn is_public(&self) -> (res: bool)
        ensures
            res == !tag_private(self.0@),
    {
        !self.is_private()
    }

    pub fn is_reserved(&self) -> (res: bool)
        ensures
            res == tag_reserved(self.0@),
    {
        self.0[2] & 0x20 != 0
    }

    pub fn is_safe_to_copy(&self) -> (res: bool)
        ensures
            res == tag_safe_to_copy(self.0@),
    {
        self.0[3] & 0x20 != 0
    }

    pub fn is_unsafe_to_copy(&self) -> (res: bool)
        ensures
            res == !tag_safe_to_copy(self.0@),
    {
        !self.is_safe_to_copy()
    }

    /// The tag as text.
    ///
    /// Relies on core::str::from_utf8: ASCII bytes decode to exactly one
    /// char each, equal to the byte. The tag is required to be ASCII, so
    /// the conversion cannot fail.
    #[verifier::external_body]
    pub fn as_str(&self) -> (res: &str)
        requires
            forall|i: int| 0 <= i < 4 ==> self.0@[i] < 0x80,
        ensures
            res@.len() == 4,
            forall|i: int| 0 <= i < 4 ==> res@[i] == self.0@[i] as char,
    {
        core::str::from_utf8(&self.0).unwrap()
    }
}

/// Reads the big-endian 32-bit value at `off`.
pub(crate) fn read_be32(s: &[u8], off: usize) -> (res: u32)
    requires
        off + 4 <= s@.len(),
    ensures
        res == be32_of(s@[off as int], s@[off + 1], s@[off + 2], s@[off + 3]),
{
    (s[off] as u32) * 0x100_0000 + (s[off + 1] as u32) * 0x1_0000 + (s[off + 2] as u32) * 0x100 + (
    s[off + 3] as u32)
}

fn is_ascii_letter(b: u8) -> (res: bool)
    ensures
        res == ascii_letter(b),
{
    (0x41 <= b && b <= 0x5A) || (0x61 <= b && b <= 0x7A)
}

/// One chunk's framing, borrowing its payload from the input buffer.
pub struct PngChunk<'a> {
    len: usize,
    chunk_type: FourCC,
    data: &'a [u8],
    crc: u32,
}

impl<'a> View for PngChunk<'a> {
    type V = ChunkModel;

    closed spec fn view(&self) -> ChunkModel {
        ChunkModel {
            len: self.len as nat,
            tag: self.chunk_type.0@,
            data: self.data@,
            crc: self.crc,
        }
    }
}

impl<'a> PngChunk<'a> {
    /// The declared payload length.
    pub fn len(&self) -> (res: usize)
        ensures
            res == self@.len,
    {
        self.len
    }

    pub fn chunk_type(&self) -> (res: FourCC)
        ensures
            res.0@ == self@.tag,
    {
        self.chunk_type
    }

    /// The stored checksum; exposed, never enforced.
    pub fn crc(&self) -> (res: u32)
        ensures
            res == self@.crc,
    {
        self.crc
    }

    /// Whether this is the terminal chunk that logically ends the stream.
    pub fn is_iend(&self) -> (res: bool)
        ensures
            res == (self@.tag == tag_iend()),
    {
        self.chunk_type.is_tag(0x49, 0x45, 0x4E, 0x44)
    }

    pub fn data(&self) -> (res: &'a [u8])
        ensures
            res@ == self@.data,
    {
        self.data
    }
}

/// A cursor over the chunk stream; its view is the remaining input bytes.
pub struct Chunks<'a> {
    slice: &'a [u8],
}

impl<'a> View for Chunks<'a> {
    type V = Seq<u8>;

    closed spec fn view(&self) -> Seq<u8> {
        self.slice@
    }
}

impl<'a> Chunks<'a> {
    /// A cursor positioned at the start of `slice`.
    pub fn new(slice: &'a [u8]) -> (res: Self)
        ensures
            res@ == slice@,
    {
        Chunks { slice }
    }

    /// Parses the next chunk's framing without advancing the cursor.
    pub fn peek_chunk(&self) -> (res: Result<PngChunk<'a>, DecodeError>)
        ensures
            match res {
                Ok(c) => parse_chunk(self@) == Option::Some(c@),
                Err(e) => parse_chunk(self@) is None && e == DecodeError::InvalidData,
            },
    {
        let slice = self.slice;
        if slice.len() < 12 {
            return Err(DecodeError::InvalidData);
        }
        let length = read_be32(slice, 0);
        let len = length as usize;
        let chunk_type = FourCC([slice[4], slice[5], slice[6], slice[7]]);
        proof {
            assert(chunk_type.0@ =~= self@.subrange(4, 8));
        }
        if !chunk_type.is_valid() {
            return Err(DecodeError::InvalidData);
        }
        if slice.len() - 12 < len {
            return Err(DecodeError::InvalidData);
        }
        let data = vstd::slice::slice_subrange(slice, 8, 8 + len);
        let crc = read_be32(slice, 8 + len);
        let res = PngChunk { len, chunk_type, data, crc };
        proof {
            assert(parse_chunk(self@) == Option::Some(res@));
        }
        Ok(res)
    }

    /// Parses the next chunk and advances the cursor past its payload and
    /// checksum.
    pub fn next_chunk(&mut self) -> (res: Result<PngChunk<'a>, DecodeError>)
        ensures
            match res {
                Ok(c) => parse_chunk(old(self)@) == Option::Some(c@)
                    && final(self)@ == old(self)@.skip(12 + c@.len as int),
                Err(e) => parse_chunk(old(self)@) is None
                    && e == DecodeError::InvalidData
                    && final(self)@ == old(self)@,
            },
    {
        let chunk = match self.peek_chunk() {
            Ok(c) => c,
            Err(e) => {
                return Err(e);
            },
        };
        proof {
            lemma_parse_chunk_bounds(old(self)@);
            assert(parse_chunk(old(self)@).unwrap() == chunk@);
            assert(12 + chunk@.len <= old(self)@.len());
        }
        let n = self.slice.len();
        self.slice = vstd::slice::slice_subrange(self.slice, 12 + chunk.len(), n);
        proof {
            assert(self@ =~= old(self)@.skip(12 + chunk@.len as int));
        }
        Ok(chunk)
    }
}

/// Skips forward from `s` to the first data-bearing or terminal chunk,
/// silently passing palette and ancillary chunks; an unknown critical
/// chunk is a hard failure, a malformed chunk is invalid data.
pub open spec fn skip_to_idat(s: Seq<u8>) -> Result<Seq<u8>, DecodeError>
    decreases s.len(),
{
    match parse_chunk(s) {
        Option::None => Err(DecodeError::InvalidData),
        Option::Some(c) => {
            if c.tag == tag_idat() || c.tag == tag_iend() {
                Ok(s)
            } else if c.tag == tag_plte() || tag_ancillary(c.tag) {
                skip_to_idat(s.skip(12 + c.len as int))
            } else {
                Err(DecodeError::UnsupportedFormat)
            }
        },
    }
}

/// Concatenates the payloads of all data-bearing chunks from `s` up to the
/// terminal chunk, in arrival order, with a flag telling whether any
/// data-bearing chunk occurred. An unknown critical chunk is a hard
/// failure; ancillary chunks are skipped.
pub open spec fn merge_idat(s: Seq<u8>) -> Result<(Seq<u8>, bool), DecodeError>
    decreases s.len(),
{
    match parse_chunk(s) {
        Option::None => Err(DecodeError::InvalidData),
        Option::Some(c) => {
            if c.tag == tag_iend() {
                Ok((Seq::empty(), false))
            } else if c.tag == tag_idat() {
                match merge_idat(s.skip(12 + c.len as int)) {
                    Err(e) => Err(e),
                    Ok((rest, _)) => Ok((c.data + rest, true)),
                }
            } else if tag_critical(c.tag) {
                Err(DecodeError::UnsupportedFormat)
            } else {
                merge_idat(s.skip(12 + c.len as int))
            }
        },
    }
}

/// What collecting the data-bearing chunks from `s` yields: the merged
/// compressed buffer, or the first failure. Without `skip_plte` the walk
/// first skips everything before the first data-bearing chunk; the merge
/// then requires at least one data-bearing chunk before the terminal one.
pub open spec fn get_idat_spec(s: Seq<u8>, skip_plte: bool) -> Result<Seq<u8>, DecodeError> {
    let start = if skip_plte {
        Ok(s)
    } else {
        skip_to_idat(s)
    };
    match start {
        Err(e) => Err(e),
        Ok(rest) => match merge_idat(rest) {
            Err(e) => Err(e),
            Ok((bytes, saw)) => if saw {
                Ok(bytes)
            } else {
                Err(DecodeError::InvalidData)
            },
        },
    }
}

/// Appends every byte of `s` to `v`.
pub fn push_all(v: &mut Vec<u8>, s: &[u8])
    ensures
        final(v)@ == old(v)@ + s@,
{
    let n = s.len();
    let mut i: usize = 0;
    while i < n
        invariant
            i <= n,
            n == s@.len(),
            v@ == old(v)@ + s@.subrange(0, i as int),
        decreases n - i,
    {
        v.push(s[i]);
        proof {
            assert(v@ =~= old(v)@ + s@.subrange(0, i + 1));
        }
        i = i + 1;
    }
    proof {
        assert(old(v)@ + s@.subrange(0, n as int) =~= old(v)@ + s@);
    }
}

impl<'a> Chunks<'a> {
    /// Collects the data-bearing chunks reachable from this cursor into one
    /// owned buffer, as [`get_idat_spec`] describes.
    pub fn get_idat_chunks(self, skip_plte: bool) -> (res: Result<Vec<u8>, DecodeError>)
        ensures
            match res {
                Ok(v) => get_idat_spec(self@, skip_plte) == Ok::<Seq<u8>, DecodeError>(v@),
                Err(e) => get_idat_spec(self@, skip_plte) == Err::<Seq<u8>, DecodeError>(e),
            },
    {
        let mut cur = self;
        if !skip_plte {
            loop
                invariant
                    !skip_plte,
                    skip_to_idat(self@) == skip_to_idat(cur@),
                ensures
                    skip_to_idat(self@) == Ok::<Seq<u8>, DecodeError>(cur@),
                decreases cur@.len(),
            {
                let c = match cur.peek_chunk() {
                    Ok(c) => c,
                    Err(e) => {
                        return Err(e);
                    },
                };
                if c.chunk_type().is_tag(0x49, 0x44, 0x41, 0x54) || c.is_iend() {
                    proof {
                        assert(skip_to_idat(cur@) == Ok::<Seq<u8>, DecodeError>(cur@));
                    }
                    break;
                }
                if !c.chunk_type().is_tag(0x50, 0x4C, 0x54, 0x45) && c.chunk_type().is_critical() {
                    return Err(DecodeError::UnsupportedFormat);
                }
                let ghost before = cur@;
                match cur.next_chunk() {
                    Ok(_) => (),
                    Err(e) => {
                        return Err(e);
                    },
                };
                proof {
                    lemma_parse_chunk_bounds(before);
                }
            }
        }
        let ghost rest0 = cur@;
        let mut out: Vec<u8> = Vec::new();
        let mut saw = false;
        loop
            invariant_except_break
                match merge_idat(cur@) {
                    Ok(p) => merge_idat(rest0) == Ok::<(Seq<u8>, bool), DecodeError>(
                        (out@ + p.0, saw || p.1),
                    ),
                    Err(e) => merge_idat(rest0) == Err::<(Seq<u8>, bool), DecodeError>(e),
                },
            invariant
                if skip_plte {
                    rest0 == self@
                } else {
                    skip_to_idat(self@) == Ok::<Seq<u8>, DecodeError>(rest0)
                },
            ensures
                merge_idat(rest0) == Ok::<(Seq<u8>, bool), DecodeError>((out@, saw)),
            decreases cur@.len(),
        {
            let ghost before = cur@;
            let c = match cur.next_chunk() {
                Ok(c) => c,
                Err(e) => {
                    return Err(e);
                },
            };
            proof {
                lemma_parse_chunk_bounds(before);
            }
            if c.is_iend() {
                proof {
                    assert(out@ + Seq::<u8>::empty() =~= out@);
                    assert(merge_idat(before) == Ok::<(Seq<u8>, bool), DecodeError>(
                        (Seq::empty(), false),
                    ));
                }
                break;
            }
            if !c.chunk_type().is_tag(0x49, 0x44, 0x41, 0x54) {
                if c.chunk_type().is_critical() {
                    return Err(DecodeError::UnsupportedFormat);
                }
            } else {
                let ghost out0 = out@;
                push_all(&mut out, c.data());
                saw = true;
                proof {
                    if merge_idat(cur@) is Ok {
                        let p = merge_idat(cur@).unwrap();
                        assert(out0 + (c@.data + p.0) =~= (out0 + c@.data) + p.0);
                    }
                }
            }
        }
        if saw {
            Ok(out)
        } else {
            Err(DecodeError::InvalidData)
        }
    }
}

/// A chunk that lies complete at the head of `x` parses the same, with
/// the same framing, whatever is appended after `x`; the walk past it
/// lands on the same position followed by the appended bytes.
pub proof fn lemma_parse_chunk_append(x: Seq<u8>, rest: Seq<u8>)
    requires
        parse_chunk(x) is Some,
    ensures
        parse_chunk(x + rest) == parse_chunk(x),
        (x + rest).skip(12 + parse_chunk(x).unwrap().len as int) == x.skip(
            12 + parse_chunk(x).unwrap().len as int,
        ) + rest,
{
    let c = parse_chunk(x).unwrap();
    let s = x + rest;
    let n = c.len as int;
    assert(12 + n <= x.len());
    assert(s[0] == x[0] && s[1] == x[1] && s[2] == x[2] && s[3] == x[3]);
    assert(s.subrange(4, 8) =~= x.subrange(4, 8));
    assert(s.subrange(8, 8 + n) =~= x.subrange(8, 8 + n));
    assert(s[8 + n] == x[8 + n] && s[8 + n + 1] == x[8 + n + 1] && s[8 + n + 2] == x[8 + n + 2]
        && s[8 + n + 3] == x[8 + n + 3]);
    assert(s.skip(12 + n) =~= x.skip(12 + n) + rest);
    assert(parse_chunk(s) == parse_chunk(x));
}

/// The four big-endian bytes that denote `v`.
pub open spec fn be32_bytes(v: u32) -> Seq<u8> {
    seq![
        ((v >> 24) & 0xFF) as u8,
        ((v >> 16) & 0xFF) as u8,
        ((v >> 8) & 0xFF) as u8,
        (v & 0xFF) as u8,
    ]
}

/// The byte encoding of one whole chunk: payload length, tag, payload,
/// checksum.
pub open spec fn encode_chunk(tag: Seq<u8>, payload: Seq<u8>, crc: u32) -> Seq<u8> {
    be32_bytes(payload.len() as u32) + tag + payload + be32_bytes(crc)
}

/// Reading back the four bytes of a value gives the value.
proof fn lemma_be32_bytes_roundtrip(v: u32)
    ensures
        be32_of(be32_bytes(v)[0], be32_bytes(v)[1], be32_bytes(v)[2], be32_bytes(v)[3]) == v,
{
    assert((v >> 24) & 0xFF < 256 && (v >> 16) & 0xFF < 256 && (v >> 8) & 0xFF < 256 && v & 0xFF
        < 256) by (bit_vector);
    assert(((v >> 24) & 0xFF) * 0x100_0000 + ((v >> 16) & 0xFF) * 0x1_0000 + ((v >> 8) & 0xFF)
        * 0x100 + (v & 0xFF) == v) by (bit_vector);
}

/// Parsing a stream that starts with an encoded chunk yields exactly that
/// chunk, and the stream past it is the remainder.
pub proof fn lemma_parse_encoded_chunk(tag: Seq<u8>, payload: Seq<u8>, crc: u32, rest: Seq<u8>)
    requires
        tag_valid(tag),
        payload.len() < 0x1_0000_0000,
    ensures
        ({
            let s = encode_chunk(tag, payload, crc) + rest;
            let c = parse_chunk(s);
            &&& c is Some
            &&& c.unwrap().tag == tag
            &&& c.unwrap().len == payload.len()
            &&& c.unwrap().data == payload
            &&& s.skip(12 + payload.len() as int) == rest
        }),
{
    let s = encode_chunk(tag, payload, crc) + rest;
    let n = payload.len() as int;
    lemma_be32_bytes_roundtrip(payload.len() as u32);
    assert(s[0] == be32_bytes(payload.len() as u32)[0] && s[1] == be32_bytes(
        payload.len() as u32,
    )[1] && s[2] == be32_bytes(payload.len() as u32)[2] && s[3] == be32_bytes(
        payload.len() as u32,
    )[3]);
    assert(be32_of(s[0], s[1], s[2], s[3]) == payload.len());
    assert(s.subrange(4, 8) =~= tag);
    assert(s.subrange(8, 8 + n) =~= payload);
    assert(s.skip(12 + n) =~= rest);
}

/// Merging a stream that starts with one data-bearing chunk prepends its
/// payload to whatever the rest of the stream merges to.
pub proof fn lemma_merge_idat_chunk(payload: Seq<u8>, crc: u32, rest: Seq<u8>)
    requires
        payload.len() < 0x1_0000_0000,
    ensures
        merge_idat(encode_chunk(tag_idat(), payload, crc) + rest) == (match merge_idat(rest) {
            Ok((bytes, _)) => Ok::<(Seq<u8>, bool), DecodeError>((payload + bytes, true)),
            Err(e) => Err::<(Seq<u8>, bool), DecodeError>(e),
        }),
{
    lemma_idat_tag_valid();
    lemma_parse_encoded_chunk(tag_idat(), payload, crc, rest);
}

/// The data-bearing tag is a valid, critical tag and differs from the
/// terminal tag.
pub proof fn lemma_idat_tag_valid()
    ensures
        tag_valid(tag_idat()),
        tag_critical(tag_idat()),
        tag_idat() != tag_iend(),
{
    assert(0x49u8 & 0x20 == 0 && 0x44u8 & 0x20 == 0 && 0x41u8 & 0x20 == 0 && 0x54u8 & 0x20 == 0)
        by (bit_vector);
    assert(tag_idat()[1] != tag_iend()[1]);
}

/// Splitting the compressed stream across three consecutive data-bearing
/// chunks merges, in arrival order, to the same buffer as one chunk that
/// holds the whole stream.
pub proof fn lemma_split_data_chunks_merge(
    p1: Seq<u8>,
    p2: Seq<u8>,
    p3: Seq<u8>,
    c1: u32,
    c2: u32,
    c3: u32,
    c: u32,
    rest: Seq<u8>,
)
    requires
        p1.len() + p2.len() + p3.len() < 0x1_0000_0000,
    ensures
        merge_idat(
            encode_chunk(tag_idat(), p1, c1) + (encode_chunk(tag_idat(), p2, c2) + (encode_chunk(
                tag_idat(),
                p3,
                c3,
            ) + rest)),
        ) == merge_idat(encode_chunk(tag_idat(), p1 + p2 + p3, c) + rest),
{
    lemma_merge_idat_chunk(p1 + p2 + p3, c, rest);
    lemma_merge_idat_chunk(
        p1,
        c1,
        encode_chunk(tag_idat(), p2, c2) + (encode_chunk(tag_idat(), p3, c3) + rest),
    );
    lemma_merge_idat_chunk(p2, c2, encode_chunk(tag_idat(), p3, c3) + rest);
    lemma_merge_idat_chunk(p3, c3, rest);
    match merge_idat(rest) {
        Ok((bytes, _)) => {
            assert(p1 + (p2 + (p3 + bytes)) =~= (p1 + p2 + p3) + bytes);
        },
        Err(_) => {},
    }
}

/// What a complete run of non-terminal chunks contributes to the merge
/// pass: the concatenated payloads of its data-bearing chunks and
/// whether it holds any, or `None` when `x` is not such a run (a
/// malformed chunk, a terminal chunk, or an unknown critical chunk).
pub open spec fn run_payload(x: Seq<u8>) -> Option<(Seq<u8>, bool)>
    decreases x.len(),
{
    if x.len() == 0 {
        Option::Some((Seq::empty(), false))
    } else {
        match parse_chunk(x) {
            Option::None => Option::None,
            Option::Some(c) => {
                if c.tag == tag_iend() {
                    Option::None
                } else if c.tag == tag_idat() {
                    match run_payload(x.skip(12 + c.len as int)) {
                        Option::None => Option::None,
                        Option::Some(p) => Option::Some((c.data + p.0, true)),
                    }
                } else if tag_critical(c.tag) {
                    Option::None
                } else {
                    run_payload(x.skip(12 + c.len as int))
                }
            },
        }
    }
}

/// The merge pass walks any complete run chunk by chunk: its outcome on
/// `x + rest` is the run's payload prepended to the outcome on `rest`.
pub proof fn lemma_merge_through_run(x: Seq<u8>, rest: Seq<u8>)
    requires
        run_payload(x) is Some,
    ensures
        merge_idat(x + rest) == (match merge_idat(rest) {
            Ok((bytes, saw)) => Ok::<(Seq<u8>, bool), DecodeError>(
                (run_payload(x).unwrap().0 + bytes, run_payload(x).unwrap().1 || saw),
            ),
            Err(e) => Err::<(Seq<u8>, bool), DecodeError>(e),
        }),
    decreases x.len(),
{
    if x.len() == 0 {
        assert(x + rest =~= rest);
        match merge_idat(rest) {
            Ok((bytes, saw)) => {
                assert(Seq::<u8>::empty() + bytes =~= bytes);
            },
            Err(_) => {},
        }
    } else {
        let c = parse_chunk(x).unwrap();
        let n = 12 + c.len as int;
        lemma_parse_chunk_append(x, rest);
        lemma_merge_through_run(x.skip(n), rest);
        if c.tag == tag_idat() {
            let p = run_payload(x.skip(n)).unwrap();
            match merge_idat(rest) {
                Ok((bytes, _)) => {
                    assert(c.data + (p.0 + bytes) =~= (c.data + p.0) + bytes);
                },
                Err(_) => {},
            }
        }
    }
}

/// Merging a stream that starts with one unknown, non-terminal chunk:
/// skipped when ancillary, a hard failure when critical.
pub proof fn lemma_unknown_chunk_merge(tag: Seq<u8>, payload: Seq<u8>, crc: u32, rest: Seq<u8>)
    requires
        tag_valid(tag),
        payload.len() < 0x1_0000_0000,
        tag != tag_idat(),
        tag != tag_iend(),
    ensures
        tag_ancillary(tag) ==> merge_idat(encode_chunk(tag, payload, crc) + rest) == merge_idat(
            rest,
        ),
        tag_critical(tag) ==> merge_idat(encode_chunk(tag, payload, crc) + rest) == Err::<
            (Seq<u8>, bool),
            DecodeError,
        >(DecodeError::UnsupportedFormat),
{
    lemma_parse_encoded_chunk(tag, payload, crc, rest);
}

/// One unknown chunk inserted at any position of the data run — after
/// any complete run of chunks the merge pass walks — is invisible to the
/// merged buffer when its ancillary bit is set, and fails the whole
/// merge as unsupported when the bit is clear.
pub proof fn lemma_unknown_chunk_in_data_run(
    x: Seq<u8>,
    rest: Seq<u8>,
    tag: Seq<u8>,
    payload: Seq<u8>,
    crc: u32,
)
    requires
        run_payload(x) is Some,
        tag_valid(tag),
        payload.len() < 0x1_0000_0000,
        tag != tag_idat(),
        tag != tag_iend(),
    ensures
        tag_ancillary(tag) ==> merge_idat(x + (encode_chunk(tag, payload, crc) + rest))
            == merge_idat(x + rest),
        tag_critical(tag) ==> merge_idat(x + (encode_chunk(tag, payload, crc) + rest)) == Err::<
            (Seq<u8>, bool),
            DecodeError,
        >(DecodeError::UnsupportedFormat),
{
    lemma_merge_through_run(x, encode_chunk(tag, payload, crc) + rest);
    lemma_merge_through_run(x, rest);
    lemma_unknown_chunk_merge(tag, payload, crc, rest);
}

} // verus!
