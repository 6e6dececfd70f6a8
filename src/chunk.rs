use vstd::prelude::*;
use vstd::utf8::{decode_utf8, valid_utf8};

use crate::chunk_type::{all_letters, ChunkType};
use crate::error::PngError;
use crate::utils::{be_u32, lemma_be_bytes_round_trip, lemma_be_u32_round_trip, read_be_u32, u32_be_bytes, write_be_u32};

verus! {

/// The CRC-32/ISO-HDLC checksum of a byte sequence.
pub uninterp spec fn crc32_of(bytes: Seq<u8>) -> u32;

/// Relies on `crc::Crc::<u32>::checksum` of the crc crate with the
/// `CRC_32_ISO_HDLC` algorithm: a checksum that depends on the bytes alone.
#[verifier::external_body]
fn crc32(bytes: &[u8]) -> (r: u32)
    ensures
        r == crc32_of(bytes@),
{
    crc::Crc::<u32>::new(&crc::CRC_32_ISO_HDLC).checksum(bytes)
}

/// Relies on std's `String::from_utf8`: it succeeds exactly on valid UTF-8,
/// and then the string holds the characters that the bytes encode.
#[verifier::external_body]
pub(crate) fn utf8_string(bytes: Vec<u8>) -> (r: Option<String>)
    ensures
        r is Some <==> valid_utf8(bytes@),
        r matches Some(s) ==> s@ == decode_utf8(bytes@),
{
    String::from_utf8(bytes).ok()
}

/// The text that lossy UTF-8 decoding gives for a byte sequence.
pub uninterp spec fn lossy_text_of(bytes: Seq<u8>) -> Seq<char>;

/// Relies on std's `String::from_utf8_lossy`: valid UTF-8 decodes as it is;
/// otherwise each invalid sequence becomes U+FFFD.
#[verifier::external_body]
fn utf8_lossy_string(bytes: &[u8]) -> (r: String)
    ensures
        r@ == lossy_text_of(bytes@),
        valid_utf8(bytes@) ==> r@ == decode_utf8(bytes@),
{
    String::from_utf8_lossy(bytes).into_owned()
}

/// Appends the bytes of `src` to `out`.
pub(crate) fn push_all(out: &mut Vec<u8>, src: &[u8])
    ensures
        final(out)@ == old(out)@ + src@,
{
    let mut i: usize = 0;
    while i < src.len()
        invariant
            0 <= i <= src@.len(),
            out@ == old(out)@ + src@.subrange(0, i as int),
        decreases src@.len() - i,
    {
        out.push(src[i]);
        i = i + 1;
        assert(out@ =~= old(out)@ + src@.subrange(0, i as int));
    }
    assert(src@.subrange(0, i as int) =~= src@);
}

/// What a chunk holds: its length field, type bytes, data and stored checksum.
pub struct ChunkView {
    pub length: u32,
    pub tag: Seq<u8>,
    pub data: Seq<u8>,
    pub crc: u32,
}

/// A chunk as `new` and decoding make it: four letters of type, a length
/// field that counts the data, and the checksum of type and data.
pub open spec fn chunk_wf(v: ChunkView) -> bool {
    &&& all_letters(v.tag)
    &&& v.length as int == v.data.len()
    &&& v.crc == crc32_of(v.tag + v.data)
}

/// The chunk that `new` makes of a type and data.
pub open spec fn new_chunk_view(tag: Seq<u8>, data: Seq<u8>) -> ChunkView {
    ChunkView { length: data.len() as u32, tag, data, crc: crc32_of(tag + data) }
}

/// The bytes of a chunk record: big-endian length, type, data, big-endian CRC.
pub open spec fn encode_chunk(v: ChunkView) -> Seq<u8> {
    u32_be_bytes(v.length) + v.tag + v.data + u32_be_bytes(v.crc)
}

/// The outcome of reading a whole chunk record from `b`.
#[verifier::opaque]
pub open spec fn decode_chunk(b: Seq<u8>) -> Result<ChunkView, PngError> {
    if b.len() < 12 {
        Err(PngError::ChunkError)
    } else if be_u32(b.subrange(b.len() - 4, b.len() as int)) != crc32_of(
        b.subrange(4, b.len() - 4),
    ) {
        Err(PngError::CRCError)
    } else if !all_letters(b.subrange(4, 8)) {
        Err(PngError::ChunkTypeError)
    } else if be_u32(b) as int != b.len() - 12 {
        Err(PngError::ChunkError)
    } else {
        Ok(
            ChunkView {
                length: be_u32(b),
                tag: b.subrange(4, 8),
                data: b.subrange(8, b.len() - 4),
                crc: be_u32(b.subrange(b.len() - 4, b.len() as int)),
            },
        )
    }
}

/// One record of a PNG file's chunk stream.
#[derive(Debug)]
pub struct Chunk {
    data_length: u32,
    chunk_type: ChunkType,
    data: Vec<u8>,
    crc: u32,
}

impl View for Chunk {
    type V = ChunkView;

    closed spec fn view(&self) -> ChunkView {
        ChunkView {
            length: self.data_length,
            tag: self.chunk_type@,
            data: self.data@,
            crc: self.crc,
        }
    }
}

impl Chunk {
    /// The chunk holds what `new` or decoding would give it.
    pub open spec fn wf(&self) -> bool {
        chunk_wf(self@)
    }

    /// Makes a chunk of a type and data, with its length and checksum.
    pub fn new(chunk_type: ChunkType, data: Vec<u8>) -> (r: Chunk)
        requires
            chunk_type.wf(),
            data@.len() <= u32::MAX,
        ensures
            r@ == new_chunk_view(chunk_type@, data@),
            r.wf(),
    {
        let tag = chunk_type.bytes();
        let mut crc_source: Vec<u8> = Vec::new();
        push_all(&mut crc_source, &tag);
        push_all(&mut crc_source, data.as_slice());
        let crc = crc32(crc_source.as_slice());
        let data_length = data.len() as u32;
        Chunk { data_length, chunk_type, data, crc }
    }

    /// Reads a whole chunk record: length, type, data and CRC. Fails with
    /// `ChunkError` when the record is shorter than twelve bytes; else with
    /// `CRCError` when the stored checksum is not that of type and data; else
    /// with `ChunkTypeError` when the type is not four letters; else with
    /// `ChunkError` when the length field does not count the data.
    pub fn from_record(value: &[u8]) -> (r: Result<Chunk, PngError>)
        ensures
            r is Ok <==> decode_chunk(value@) is Ok,
            r matches Ok(c) ==> decode_chunk(value@) == Ok::<ChunkView, PngError>(c@) && c.wf(),
            r matches Err(e) ==> decode_chunk(value@) == Err::<ChunkView, PngError>(e),
    {
        reveal(decode_chunk);
        let n = value.len();
        if n < 12 {
            return Err(PngError::ChunkError);
        }
        let stored = read_be_u32(&value[n - 4..n]);
        let computed = crc32(&value[4..n - 4]);
        if stored != computed {
            return Err(PngError::CRCError);
        }
        let tag = [value[4], value[5], value[6], value[7]];
        assert(tag@ =~= value@.subrange(4, 8));
        match ChunkType::from_bytes(tag) {
            Err(e) => Err(e),
            Ok(chunk_type) => {
                let declared = read_be_u32(value);
                if declared as usize != n - 12 {
                    return Err(PngError::ChunkError);
                }
                let mut data: Vec<u8> = Vec::new();
                push_all(&mut data, &value[8..n - 4]);
                assert(value@.subrange(4, n - 4) =~= value@.subrange(4, 8) + data@);
                Ok(Chunk { data_length: declared, chunk_type, data, crc: stored })
            },
        }
    }

    /// The length field: the number of data bytes.
    pub fn length(&self) -> (r: u32)
        ensures
            r == self@.length,
    {
        self.data_length
    }

    /// The chunk's type.
    pub fn chunk_type(&self) -> (r: &ChunkType)
        ensures
            r@ == self@.tag,
            self.wf() ==> r.wf(),
    {
        &self.chunk_type
    }

    /// The chunk's data.
    pub fn data(&self) -> (r: &[u8])
        ensures
            r@ == self@.data,
    {
        self.data.as_slice()
    }

    /// The stored checksum.
    pub fn crc(&self) -> (r: u32)
        ensures
            r == self@.crc,
    {
        self.crc
    }

    /// The data as text; fails with `EncodingError` unless it is valid UTF-8.
    pub fn data_as_string(&self) -> (r: Result<String, PngError>)
        ensures
            r is Ok <==> valid_utf8(self@.data),
            r matches Ok(s) ==> s@ == decode_utf8(self@.data),
            r matches Err(e) ==> e == PngError::EncodingError,
    {
        let mut copy: Vec<u8> = Vec::new();
        push_all(&mut copy, self.data.as_slice());
        match utf8_string(copy) {
            Some(s) => Ok(s),
            None => Err(PngError::EncodingError),
        }
    }

    /// The data as text for diagnostics: bytes that are not valid UTF-8 show
    /// as replacement characters instead of failing.
    pub fn data_as_lossy_string(&self) -> (r: String)
        ensures
            r@ == lossy_text_of(self@.data),
            valid_utf8(self@.data) ==> r@ == decode_utf8(self@.data),
    {
        utf8_lossy_string(self.data.as_slice())
    }

    /// The chunk record: big-endian length, type, data, big-endian CRC.
    pub fn as_bytes(&self) -> (r: Vec<u8>)
        ensures
            r@ == encode_chunk(self@),
    {
        let mut out: Vec<u8> = Vec::new();
        let length = write_be_u32(self.data_length);
        push_all(&mut out, &length);
        let tag = self.chunk_type.bytes();
        push_all(&mut out, &tag);
        push_all(&mut out, self.data.as_slice());
        let crc = write_be_u32(self.crc);
        push_all(&mut out, &crc);
        out
    }
}

impl<'a> TryFrom<&'a [u8]> for Chunk {
    type Error = PngError;

    fn try_from(value: &'a [u8]) -> Result<Chunk, PngError> {
        Chunk::from_record(value)
    }
}

impl<'a> vstd::std_specs::convert::TryFromSpecImpl<&'a [u8]> for Chunk {
    /// What comes back is stated by `from_record`.
    open spec fn obeys_try_from_spec() -> bool {
        false
    }

    open spec fn try_from_spec(value: &'a [u8]) -> Result<Chunk, PngError> {
        arbitrary()
    }
}

/// Encoding a well-formed chunk and reading the bytes back gives the same chunk.
pub proof fn lemma_chunk_round_trip(v: ChunkView)
    requires
        chunk_wf(v),
    ensures
        decode_chunk(encode_chunk(v)) == Ok::<ChunkView, PngError>(v),
{
    reveal(decode_chunk);
    let b = encode_chunk(v);
    lemma_be_u32_round_trip(v.length);
    lemma_be_u32_round_trip(v.crc);
    let n = b.len();
    assert(n == 12 + v.data.len());
    assert(b.subrange(0, 4) =~= u32_be_bytes(v.length));
    assert(be_u32(b) == be_u32(b.subrange(0, 4)));
    assert(b.subrange(n - 4, n as int) =~= u32_be_bytes(v.crc));
    assert(b.subrange(4, n - 4) =~= v.tag + v.data);
    assert(b.subrange(4, 8) =~= v.tag);
    assert(b.subrange(8, n - 4) =~= v.data);
}

/// Decoding is the inverse of encoding: a record that reads as a chunk is
/// exactly that chunk's encoding.
pub proof fn lemma_decode_then_encode(b: Seq<u8>)
    requires
        decode_chunk(b) is Ok,
    ensures
        decode_chunk(b) matches Ok(v) && encode_chunk(v) == b && chunk_wf(v),
{
    reveal(decode_chunk);
    let n = b.len() as int;
    let v = decode_chunk(b)->Ok_0;
    lemma_be_bytes_round_trip(b);
    lemma_be_bytes_round_trip(b.subrange(n - 4, n));
    assert(b.subrange(n - 4, n).subrange(0, 4) =~= b.subrange(n - 4, n));
    assert(b.subrange(4, n - 4) =~= v.tag + v.data);
    assert(encode_chunk(v) =~= b);
}

/// A chunk made by `new` of a valid type and data reads back from its bytes
/// with that type, that data and the checksum of both.
pub proof fn lemma_new_chunk_round_trip(tag: Seq<u8>, data: Seq<u8>)
    requires
        all_letters(tag),
        data.len() <= u32::MAX,
    ensures
        decode_chunk(encode_chunk(new_chunk_view(tag, data))) == Ok::<ChunkView, PngError>(
            new_chunk_view(tag, data),
        ),
        new_chunk_view(tag, data).tag == tag,
        new_chunk_view(tag, data).data == data,
        new_chunk_view(tag, data).crc == crc32_of(tag + data),
{
    lemma_chunk_round_trip(new_chunk_view(tag, data));
}

/// Flipping one bit of the type or data in a well-formed chunk's bytes is
/// reported as a checksum mismatch (never as a bad type, nor accepted), as
/// long as the checksum of the altered type and data is not the stored one.
pub proof fn lemma_bit_flip_detected(v: ChunkView, k: int, bit: u8)
    requires
        chunk_wf(v),
        4 <= k < 8 + v.data.len(),
        bit < 8,
        crc32_of(
            encode_chunk(v).update(k, encode_chunk(v)[k] ^ (1u8 << bit)).subrange(
                4,
                8 + v.data.len() as int,
            ),
        ) != v.crc,
    ensures
        decode_chunk(encode_chunk(v).update(k, encode_chunk(v)[k] ^ (1u8 << bit)))
            == Err::<ChunkView, PngError>(PngError::CRCError),
{
    reveal(decode_chunk);
    let b = encode_chunk(v);
    let f = b.update(k, b[k] ^ (1u8 << bit));
    lemma_be_u32_round_trip(v.length);
    lemma_be_u32_round_trip(v.crc);
    let n = f.len();
    assert(n == 12 + v.data.len());
    assert(f.subrange(0, 4) =~= u32_be_bytes(v.length));
    assert(be_u32(f) == be_u32(f.subrange(0, 4)));
    assert(f.subrange(n - 4, n as int) =~= u32_be_bytes(v.crc));
}

} // verus!
