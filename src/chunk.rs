use crate::chunk_type::{all_letters, string_from_utf8, type_of, ChunkType};
use crate::error::PngError;
use vstd::prelude::*;
use vstd::utf8::{decode_utf8, valid_utf8};

verus! {

/// The CRC-32 (ISO-HDLC polynomial, as in gzip and ZIP) of a byte sequence.
pub uninterp spec fn crc32_iso_hdlc(bytes: Seq<u8>) -> u32;

/// Relies on `crc::Crc::<u32>::checksum` with the `CRC_32_ISO_HDLC`
/// algorithm: the result is the CRC-32 of the bytes and of nothing else.
#[verifier::external_body]
fn checksum(bytes: &[u8]) -> (r: u32)
    ensures
        r == crc32_iso_hdlc(bytes@),
{
    crc::Crc::<u32>::new(&crc::CRC_32_ISO_HDLC).checksum(bytes)
}

/// The four bytes of `v`, most significant first.
pub open spec fn be_bytes(v: u32) -> Seq<u8> {
    seq![(v >> 24u32) as u8, (v >> 16u32) as u8, (v >> 8u32) as u8, v as u8]
}

/// The number that four bytes spell, most significant first.
#[verifier::opaque]
pub open spec fn be_value(b: Seq<u8>) -> u32 {
    ((b[0] as u32) << 24u32) | ((b[1] as u32) << 16u32) | ((b[2] as u32) << 8u32) | (b[3] as u32)
}

/// Reading back the bytes of a number gives the number.
pub proof fn lemma_be_value_of_bytes(v: u32)
    ensures
        be_value(be_bytes(v)) == v,
{
    reveal(be_value);
    let b = be_bytes(v);
    let (b0, b1, b2, b3) = (b[0], b[1], b[2], b[3]);
    assert(((b0 as u32) << 24u32) | ((b1 as u32) << 16u32) | ((b2 as u32) << 8u32) | (b3 as u32)
        == v) by (bit_vector)
        requires
            b0 == (v >> 24u32) as u8,
            b1 == (v >> 16u32) as u8,
            b2 == (v >> 8u32) as u8,
            b3 == v as u8,
    ;
}

/// Writing out the number that four bytes spell gives the bytes.
pub proof fn lemma_be_bytes_of_value(b: Seq<u8>)
    requires
        b.len() == 4,
    ensures
        be_bytes(be_value(b)) == b,
{
    reveal(be_value);
    let (b0, b1, b2, b3) = (b[0], b[1], b[2], b[3]);
    let v = be_value(b);
    assert((v >> 24u32) as u8 == b0 && (v >> 16u32) as u8 == b1 && (v >> 8u32) as u8 == b2
        && v as u8 == b3) by (bit_vector)
        requires
            v == ((b0 as u32) << 24u32) | ((b1 as u32) << 16u32) | ((b2 as u32) << 8u32) | (
            b3 as u32),
    ;
    assert(be_bytes(v) =~= b);
}

fn be_of(v: u32) -> (r: [u8; 4])
    ensures
        r@ == be_bytes(v),
{
    let r = [(v >> 24u32) as u8, (v >> 16u32) as u8, (v >> 8u32) as u8, v as u8];
    assert(r@ =~= be_bytes(v));
    r
}

pub(crate) fn read_be(b: &[u8], at: usize) -> (r: u32)
    requires
        at + 4 <= b@.len(),
    ensures
        r == be_value(b@.subrange(at as int, at + 4)),
{
    reveal(be_value);
    ((b[at] as u32) << 24u32) | ((b[at + 1] as u32) << 16u32) | ((b[at + 2] as u32) << 8u32) | (b[at
        + 3] as u32)
}

/// What a chunk holds: its length field, type, data and stored CRC.
pub ghost struct ChunkView {
    pub length: u32,
    pub chunk_type: ChunkType,
    pub data: Seq<u8>,
    pub crc: u32,
}

impl ChunkView {
    /// The length field counts the data, and the CRC is that of type and data.
    pub open spec fn wf(self) -> bool {
        &&& self.chunk_type.wf()
        &&& self.length as int == self.data.len()
        &&& self.crc == crc32_iso_hdlc(self.chunk_type@ + self.data)
    }
}

/// The chunk made of a type and data: its length and CRC follow from them.
pub open spec fn compose(t: ChunkType, data: Seq<u8>) -> ChunkView {
    ChunkView {
        length: data.len() as u32,
        chunk_type: t,
        data,
        crc: crc32_iso_hdlc(t@ + data),
    }
}

/// The bytes of a chunk: length, type, data and CRC, numbers big-endian.
pub open spec fn encode_chunk(c: ChunkView) -> Seq<u8> {
    be_bytes(c.length) + c.chunk_type@ + c.data + be_bytes(c.crc)
}

/// What decoding a buffer that holds exactly one chunk gives.
#[verifier::opaque]
pub open spec fn decode_chunk(b: Seq<u8>) -> Result<ChunkView, PngError> {
    if b.len() < 12 {
        Err(PngError::Truncated)
    } else {
        let length = be_value(b.subrange(0, 4));
        let t = b.subrange(4, 8);
        let data = b.subrange(8, b.len() - 4);
        let crc = be_value(b.subrange(b.len() - 4, b.len() as int));
        if !all_letters(t) {
            Err(PngError::InvalidTypeCode)
        } else if length as int > b.len() - 12 {
            Err(PngError::Truncated)
        } else if (length as int) < b.len() - 12 {
            Err(PngError::LengthMismatch)
        } else if crc != crc32_iso_hdlc(t + data) {
            Err(PngError::ChecksumMismatch)
        } else {
            Ok(ChunkView { length, chunk_type: type_of(t), data, crc })
        }
    }
}

/// Decoding the bytes of a valid chunk gives the chunk back.
pub proof fn lemma_decode_encode(c: ChunkView)
    requires
        c.wf(),
    ensures
        decode_chunk(encode_chunk(c)) == Ok::<ChunkView, PngError>(c),
{
    reveal(decode_chunk);
    let b = encode_chunk(c);
    let n = b.len();
    assert(b.subrange(0, 4) =~= be_bytes(c.length));
    assert(b.subrange(4, 8) =~= c.chunk_type@);
    assert(b.subrange(8, n - 4) =~= c.data);
    assert(b.subrange(n - 4, n as int) =~= be_bytes(c.crc));
    lemma_be_value_of_bytes(c.length);
    lemma_be_value_of_bytes(c.crc);
    assert(type_of(c.chunk_type@) == c.chunk_type);
}

/// A buffer that decodes to a chunk is exactly that chunk's bytes, and the
/// chunk is valid.
pub proof fn lemma_encode_decode(b: Seq<u8>)
    requires
        decode_chunk(b) is Ok,
    ensures
        decode_chunk(b) matches Ok(c) && c.wf() && encode_chunk(c) == b,
{
    reveal(decode_chunk);
    let c = decode_chunk(b)->Ok_0;
    let n = b.len();
    lemma_be_bytes_of_value(b.subrange(0, 4));
    lemma_be_bytes_of_value(b.subrange(n - 4, n as int));
    assert(c.chunk_type@ =~= b.subrange(4, 8));
    assert(encode_chunk(c) =~= b);
}

/// A chunk made from a type and data decodes, from its own bytes, to itself.
pub proof fn law_compose_round_trip(t: ChunkType, data: Seq<u8>)
    requires
        t.wf(),
        data.len() <= u32::MAX,
    ensures
        decode_chunk(encode_chunk(compose(t, data))) == Ok::<ChunkView, PngError>(
            compose(t, data),
        ),
{
    lemma_decode_encode(compose(t, data));
}

/// `b` with bit `k` of byte `i` flipped.
pub open spec fn flip_bit(b: Seq<u8>, i: int, k: u8) -> Seq<u8> {
    b.update(i, b[i] ^ (1u8 << k))
}

/// Flipping one bit of a valid chunk's type or data bytes, with the stored CRC
/// kept, leaves a buffer that is either refused for its type letters or
/// decoded against the stored CRC: it is accepted only if the CRC of the
/// altered type and data still equals the stored one, and refused with
/// `ChecksumMismatch` otherwise.
pub proof fn law_flipped_bit_checked(c: ChunkView, i: int, k: u8)
    requires
        c.wf(),
        4 <= i < encode_chunk(c).len() - 4,
        k < 8,
    ensures
        ({
            let f = flip_bit(encode_chunk(c), i, k);
            let altered = f.subrange(4, f.len() - 4);
            &&& !all_letters(f.subrange(4, 8)) ==> decode_chunk(f) == Err::<ChunkView, PngError>(
                PngError::InvalidTypeCode,
            )
            &&& all_letters(f.subrange(4, 8)) && crc32_iso_hdlc(altered) != c.crc ==> decode_chunk(f)
                == Err::<ChunkView, PngError>(PngError::ChecksumMismatch)
            &&& decode_chunk(f) is Ok ==> crc32_iso_hdlc(altered) == c.crc
        }),
{
    reveal(decode_chunk);
    let b = encode_chunk(c);
    let f = flip_bit(b, i, k);
    let n = b.len();
    assert(f.subrange(0, 4) =~= be_bytes(c.length));
    assert(f.subrange(n - 4, n as int) =~= be_bytes(c.crc));
    assert(f.subrange(4, 8) + f.subrange(8, n - 4) =~= f.subrange(4, n - 4));
    lemma_be_value_of_bytes(c.length);
    lemma_be_value_of_bytes(c.crc);
}

/// One chunk of a PNG document.
#[derive(Debug, Clone)]
pub struct Chunk {
    pub length: u32,
    pub chunk_type: ChunkType,
    pub data: Vec<u8>,
    pub crc: u32,
}

impl View for Chunk {
    type V = ChunkView;

    open spec fn view(&self) -> ChunkView {
        ChunkView {
            length: self.length,
            chunk_type: self.chunk_type,
            data: self.data@,
            crc: self.crc,
        }
    }
}

/// The CRC of a chunk type followed by data.
fn crc_of(t: &ChunkType, data: &[u8]) -> (r: u32)
    ensures
        r == crc32_iso_hdlc(t@ + data@),
{
    let tb = t.bytes();
    let mut combined: Vec<u8> = Vec::new();
    combined.extend_from_slice(tb.as_slice());
    combined.extend_from_slice(data);
    assert(combined@ =~= t@ + data@);
    checksum(combined.as_slice())
}

impl Chunk {
    /// The chunk's validity: that of its view.
    pub open spec fn wf(&self) -> bool {
        self@.wf()
    }

    /// A chunk of the given type holding `data`, with its CRC computed.
    pub fn new(chunk_type: ChunkType, data: Vec<u8>) -> (r: Chunk)
        requires
            chunk_type.wf(),
            data@.len() <= u32::MAX,
        ensures
            r@ == compose(chunk_type, data@),
            r.wf(),
    {
        let crc = crc_of(&chunk_type, data.as_slice());
        Chunk { length: data.len() as u32, chunk_type, data, crc }
    }

    /// Decodes a buffer that holds exactly one chunk, checking its CRC.
    pub fn decode(c: &[u8]) -> (r: Result<Chunk, PngError>)
        ensures
            match r {
                Ok(ch) => decode_chunk(c@) == Ok::<ChunkView, PngError>(ch@) && ch.wf(),
                Err(e) => decode_chunk(c@) == Err::<ChunkView, PngError>(e),
            },
    {
        reveal(decode_chunk);
        if c.len() < 12 {
            return Err(PngError::Truncated);
        }
        let n = c.len();
        let length = read_be(c, 0);
        let chunk_type = match ChunkType::from_bytes([c[4], c[5], c[6], c[7]]) {
            Ok(t) => t,
            Err(e) => {
                assert([c@[4], c@[5], c@[6], c@[7]]@ =~= c@.subrange(4, 8));
                return Err(e);
            },
        };
        assert(chunk_type@ =~= c@.subrange(4, 8));
        if length as usize > n - 12 {
            return Err(PngError::Truncated);
        }
        if (length as usize) < n - 12 {
            return Err(PngError::LengthMismatch);
        }
        let mut data: Vec<u8> = Vec::new();
        data.extend_from_slice(&c[8..n - 4]);
        assert(data@ =~= c@.subrange(8, n - 4));
        let crc = read_be(c, n - 4);
        if crc != crc_of(&chunk_type, data.as_slice()) {
            return Err(PngError::ChecksumMismatch);
        }
        Ok(Chunk { length, chunk_type, data, crc })
    }

    /// The length field: the number of data bytes.
    pub fn length(&self) -> (r: u32)
        ensures
            r == self.length,
    {
        self.length
    }

    /// The chunk's type.
    pub fn chunk_type(&self) -> (r: &ChunkType)
        ensures
            *r == self.chunk_type,
    {
        &self.chunk_type
    }

    /// The chunk's data.
    pub fn data(&self) -> (r: &[u8])
        ensures
            r@ == self.data@,
    {
        self.data.as_slice()
    }

    /// The CRC of type and data, computed afresh; it equals the stored one.
    pub fn crc(&self) -> (r: u32)
        requires
            self.wf(),
        ensures
            r == self.crc,
            r == crc32_iso_hdlc(self.chunk_type@ + self.data@),
    {
        crc_of(&self.chunk_type, self.data.as_slice())
    }

    /// The data read as UTF-8 text.
    pub fn data_as_string(&self) -> (r: Result<String, PngError>)
        ensures
            r is Ok <==> valid_utf8(self.data@),
            r matches Ok(s) ==> s@ == decode_utf8(self.data@),
            r matches Err(e) ==> e == PngError::InvalidText,
    {
        match string_from_utf8(self.data.clone()) {
            Some(s) => Ok(s),
            None => Err(PngError::InvalidText),
        }
    }

    /// The chunk's bytes: length, type, data and CRC.
    pub fn as_bytes(&self) -> (r: Vec<u8>)
        ensures
            r@ == encode_chunk(self@),
    {
        let lb = be_of(self.length);
        let tb = self.chunk_type.bytes();
        let cb = be_of(self.crc);
        let mut r: Vec<u8> = Vec::new();
        r.extend_from_slice(lb.as_slice());
        r.extend_from_slice(tb.as_slice());
        r.extend_from_slice(self.data.as_slice());
        r.extend_from_slice(cb.as_slice());
        assert(r@ =~= encode_chunk(self@));
        r
    }
}

} // verus!
