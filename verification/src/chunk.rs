//! One length-prefixed, type-tagged, checksummed record of a PNG stream.
use crate::chunk_type::spec_letters;
use crate::chunk_type::ChunkType;
use crate::error::PngError;
use crate::text::bytes_to_text;
use vstd::prelude::*;
use vstd::slice::slice_to_vec;
use vstd::utf8::decode_utf8;
use vstd::utf8::valid_utf8;

verus! {

/// The CRC-32/ISO-HDLC checksum of a byte sequence, as the `crc` crate
/// computes it. The checksum itself is left uninterpreted: the model only
/// relies on it being a pure function of the bytes.
pub uninterp spec fn crc32_of(bytes: Seq<u8>) -> u32;

/// Relies on `crc::Crc::<u32>::checksum` with the `CRC_32_ISO_HDLC` algorithm
/// (the zlib/PNG polynomial): the checksum depends on the input bytes alone.
#[verifier::external_body]
fn crc32_checksum(bytes: &[u8]) -> (r: u32)
    ensures
        r == crc32_of(bytes@),
{
    crc::Crc::<u32>::new(&crc::CRC_32_ISO_HDLC).checksum(bytes)
}

/// A `u32` as four big-endian bytes, as the wire format stores lengths and
/// checksums.
pub open spec fn spec_u32_to_be_bytes(x: u32) -> Seq<u8> {
    seq![
        ((x >> 24u32) & 0xff) as u8,
        ((x >> 16u32) & 0xff) as u8,
        ((x >> 8u32) & 0xff) as u8,
        (x & 0xff) as u8,
    ]
}

/// Four big-endian bytes read back as a `u32`.
pub open spec fn spec_u32_from_be_bytes(s: Seq<u8>) -> u32
    recommends
        s.len() == 4,
{
    ((s[0] as u32) << 24u32) | ((s[1] as u32) << 16u32) | ((s[2] as u32) << 8u32) | (s[3] as u32)
}

/// Reading back the four big-endian bytes of a `u32` gives the same value.
pub proof fn lemma_u32_be_bytes_of_u32(x: u32)
    ensures
        spec_u32_from_be_bytes(spec_u32_to_be_bytes(x)) == x,
{
    assert(((((x >> 24u32) & 0xff) as u8 as u32) << 24u32) | ((((x >> 16u32) & 0xff) as u8 as u32)
        << 16u32) | ((((x >> 8u32) & 0xff) as u8 as u32) << 8u32) | ((x & 0xff) as u8 as u32)
        == x) by (bit_vector);
}

/// Any four bytes are the big-endian encoding of the `u32` they decode to.
pub proof fn lemma_u32_of_be_bytes(s: Seq<u8>)
    requires
        s.len() == 4,
    ensures
        spec_u32_to_be_bytes(spec_u32_from_be_bytes(s)) == s,
{
    let b0 = s[0];
    let b1 = s[1];
    let b2 = s[2];
    let b3 = s[3];
    let x = spec_u32_from_be_bytes(s);
    assert({
        let y = ((b0 as u32) << 24u32) | ((b1 as u32) << 16u32) | ((b2 as u32) << 8u32) | (
        b3 as u32);
        ((y >> 24u32) & 0xff) as u8 == b0 && ((y >> 16u32) & 0xff) as u8 == b1 && ((y >> 8u32)
            & 0xff) as u8 == b2 && (y & 0xff) as u8 == b3
    }) by (bit_vector);
    assert(spec_u32_to_be_bytes(x) =~= s);
}

fn u32_to_be_bytes(x: u32) -> (r: Vec<u8>)
    ensures
        r@ == spec_u32_to_be_bytes(x),
{
    proof {
        assert((x >> 24u32) & 0xff < 256 && (x >> 16u32) & 0xff < 256 && (x >> 8u32) & 0xff < 256
            && x & 0xff < 256) by (bit_vector);
    }
    let mut r: Vec<u8> = Vec::new();
    r.push(((x >> 24u32) & 0xff) as u8);
    r.push(((x >> 16u32) & 0xff) as u8);
    r.push(((x >> 8u32) & 0xff) as u8);
    r.push((x & 0xff) as u8);
    proof {
        assert(r@ =~= spec_u32_to_be_bytes(x));
    }
    r
}

fn u32_from_be_slice(bytes: &[u8], off: usize) -> (x: u32)
    requires
        off + 4 <= bytes@.len(),
    ensures
        x == spec_u32_from_be_bytes(bytes@.subrange(off as int, off as int + 4)),
{
    let b0 = bytes[off];
    let b1 = bytes[off + 1];
    let b2 = bytes[off + 2];
    let b3 = bytes[off + 3];
    proof {
        assert(bytes@.subrange(off as int, off as int + 4) =~= seq![b0, b1, b2, b3]);
    }
    ((b0 as u32) << 24u32) | ((b1 as u32) << 16u32) | ((b2 as u32) << 8u32) | (b3 as u32)
}

/// The mathematical content of a chunk record: its type bytes, its payload,
/// and the checksum stored beside them.
#[verifier::ext_equal]
pub struct ChunkModel {
    pub ctype: Seq<u8>,
    pub data: Seq<u8>,
    pub crc: u32,
}

/// A well-formed record: four ASCII-letter type bytes, a payload whose length
/// fits the 4-byte length field, and a checksum that matches type and payload.
pub open spec fn wf_chunk(m: ChunkModel) -> bool {
    &&& spec_letters(m.ctype)
    &&& m.data.len() <= u32::MAX
    &&& m.crc == crc32_of(m.ctype + m.data)
}

/// The wire form of a record: `length (4B BE) ++ type (4B) ++ data ++ crc (4B BE)`.
pub open spec fn spec_chunk_bytes(m: ChunkModel) -> Seq<u8> {
    spec_u32_to_be_bytes(m.data.len() as u32) + m.ctype + m.data + spec_u32_to_be_bytes(m.crc)
}

/// What parsing a chunk record from the front of `b` yields: the declared
/// length is read first, then the type bytes are validated, then the payload
/// extent is checked against the buffer, then the stored checksum is compared
/// with the one recomputed over type and payload.
pub open spec fn spec_parse_chunk(b: Seq<u8>) -> Result<ChunkModel, PngError> {
    if b.len() < 8 {
        Err(PngError::TruncatedInput)
    } else {
        let declared = spec_u32_from_be_bytes(b.subrange(0, 4)) as int;
        let ctype = b.subrange(4, 8);
        if !spec_letters(ctype) {
            Err(PngError::InvalidChunkType)
        } else if b.len() < 12 + declared {
            Err(PngError::TruncatedInput)
        } else {
            let data = b.subrange(8, 8 + declared);
            let stored = spec_u32_from_be_bytes(b.subrange(8 + declared, 12 + declared));
            if stored != crc32_of(ctype + data) {
                Err(PngError::InvalidCrc)
            } else {
                Ok(ChunkModel { ctype, data, crc: stored })
            }
        }
    }
}

/// One PNG chunk record. The stored length always equals the payload length
/// and the stored checksum always matches type and payload: a record parsed
/// from bytes is rejected rather than constructed when they do not.
#[derive(Debug, PartialEq)]
pub struct Chunk {
    pub(crate) length: u32,
    pub(crate) chunk_type: ChunkType,
    pub(crate) data: Vec<u8>,
    pub(crate) crc: u32,
}

impl View for Chunk {
    type V = ChunkModel;

    closed spec fn view(&self) -> ChunkModel {
        ChunkModel { ctype: self.chunk_type@, data: self.data@, crc: self.crc }
    }
}

/// Builds the byte sequence the checksum covers: the four type bytes followed
/// by the payload.
fn type_and_data(chunk_type: &ChunkType, data: &Vec<u8>) -> (r: Vec<u8>)
    ensures
        r@ == chunk_type@ + data@,
{
    let tb = chunk_type.bytes();
    let mut r: Vec<u8> = Vec::new();
    r.push(tb[0]);
    r.push(tb[1]);
    r.push(tb[2]);
    r.push(tb[3]);
    proof {
        assert(r@ =~= chunk_type@ + data@.subrange(0, 0));
    }
    let mut i: usize = 0;
    while i < data.len()
        invariant
            i <= data@.len(),
            r@ == chunk_type@ + data@.subrange(0, i as int),
        decreases data@.len() - i,
    {
        r.push(data[i]);
        i = i + 1;
        proof {
            assert(r@ =~= chunk_type@ + data@.subrange(0, i as int));
        }
    }
    proof {
        assert(data@.subrange(0, data@.len() as int) =~= data@);
    }
    r
}

impl Chunk {
    #[verifier::type_invariant]
    pub(crate) open spec fn well_formed(self) -> bool {
        wf_chunk(self@) && self.length == self@.data.len()
    }

    /// Checks whether `crc` is the checksum of the given type and payload.
    pub fn is_valid_crc(chunk_type: &ChunkType, data: &Vec<u8>, crc: u32) -> (r: bool)
        ensures
            r == (crc == crc32_of(chunk_type@ + data@)),
    {
        let x = type_and_data(chunk_type, data);
        let crc_output = crc32_checksum(x.as_slice());
        crc_output == crc
    }

    /// Builds a fresh record from a type code and a payload; the length and
    /// the checksum are computed, never supplied.
    pub fn new(chunk_type: ChunkType, data: Vec<u8>) -> (r: Chunk)
        requires
            data@.len() <= u32::MAX,
        ensures
            r@.ctype == chunk_type@,
            r@.data == data@,
            r@.crc == crc32_of(chunk_type@ + data@),
    {
        let length: u32 = data.len() as u32;
        let x = type_and_data(&chunk_type, &data);
        let crc = crc32_checksum(x.as_slice());
        proof {
            use_type_invariant(&chunk_type);
        }
        Chunk { length, chunk_type, data, crc }
    }

    /// The payload length stored in the record, always the payload's size.
    pub fn length(&self) -> (r: u32)
        ensures
            r as nat == self@.data.len(),
    {
        proof {
            use_type_invariant(self);
        }
        self.length
    }

    /// The record's type code.
    pub fn chunk_type(&self) -> (r: &ChunkType)
        ensures
            r@ == self@.ctype,
    {
        &self.chunk_type
    }

    /// The raw payload bytes.
    pub fn data(&self) -> (r: &[u8])
        ensures
            r@ == self@.data,
    {
        self.data.as_slice()
    }

    /// The stored checksum, always equal to the checksum of type and payload.
    pub fn crc(&self) -> (r: u32)
        ensures
            r == self@.crc,
            r == crc32_of(self@.ctype + self@.data),
    {
        proof {
            use_type_invariant(self);
        }
        self.crc
    }

    /// The payload interpreted as UTF-8 text; fails with `Utf8DecodeError`
    /// exactly when the bytes are not valid UTF-8.
    pub fn data_as_string(&self) -> (r: Result<String, PngError>)
        ensures
            r is Ok <==> valid_utf8(self@.data),
            r matches Ok(s) ==> s@ == decode_utf8(self@.data),
            r is Err ==> r == Err::<String, PngError>(PngError::Utf8DecodeError),
    {
        match bytes_to_text(self.data.as_slice()) {
            Some(s) => Ok(s),
            None => Err(PngError::Utf8DecodeError),
        }
    }

    /// Serializes the record to its wire form.
    pub fn as_bytes(&self) -> (r: Vec<u8>)
        ensures
            r@ == spec_chunk_bytes(self@),
    {
        proof {
            use_type_invariant(self);
        }
        let mut bytes = u32_to_be_bytes(self.length);
        let mut body = type_and_data(&self.chunk_type, &self.data);
        bytes.append(&mut body);
        let mut crc_bytes = u32_to_be_bytes(self.crc);
        bytes.append(&mut crc_bytes);
        proof {
            assert(bytes@ =~= spec_chunk_bytes(self@));
        }
        bytes
    }

    /// Parses one record from the front of `bytes`, exactly as
    /// [`spec_parse_chunk`] describes.
    pub fn try_from(bytes: &[u8]) -> (r: Result<Chunk, PngError>)
        ensures
            (match r {
                Ok(c) => spec_parse_chunk(bytes@) == Ok::<ChunkModel, PngError>(c@),
                Err(e) => spec_parse_chunk(bytes@) == Err::<ChunkModel, PngError>(e),
            }),
    {
        let n = bytes.len();
        if n < 8 {
            return Err(PngError::TruncatedInput);
        }
        let length = u32_from_be_slice(bytes, 0);
        let type_bytes: [u8; 4] = [bytes[4], bytes[5], bytes[6], bytes[7]];
        proof {
            assert(type_bytes@ =~= bytes@.subrange(4, 8));
        }
        let chunk_type = match ChunkType::try_from(type_bytes) {
            Ok(ct) => ct,
            Err(e) => {
                return Err(e);
            },
        };
        let declared = length as usize;
        if n < 12 || n - 12 < declared {
            return Err(PngError::TruncatedInput);
        }
        let data: Vec<u8> = slice_to_vec(&bytes[8..8 + declared]);
        let stored = u32_from_be_slice(bytes, 8 + declared);
        if !Self::is_valid_crc(&chunk_type, &data, stored) {
            return Err(PngError::InvalidCrc);
        }
        let c = Chunk { length, chunk_type, data, crc: stored };
        proof {
            assert(spec_parse_chunk(bytes@) matches Ok(m) && m =~= c@);
        }
        Ok(c)
    }
}

/// Parsing any byte stream that begins with the serialization of a
/// well-formed record yields exactly that record, whatever follows it.
pub proof fn lemma_parse_chunk_prefix(m: ChunkModel, rest: Seq<u8>)
    requires
        wf_chunk(m),
    ensures
        spec_parse_chunk(spec_chunk_bytes(m) + rest) == Ok::<ChunkModel, PngError>(m),
{
    let b = spec_chunk_bytes(m) + rest;
    let dlen = m.data.len() as int;
    lemma_u32_be_bytes_of_u32(m.data.len() as u32);
    lemma_u32_be_bytes_of_u32(m.crc);
    assert(b.subrange(0, 4) =~= spec_u32_to_be_bytes(m.data.len() as u32));
    assert(b.subrange(4, 8) =~= m.ctype);
    assert(b.subrange(8, 8 + dlen) =~= m.data);
    assert(b.subrange(8 + dlen, 12 + dlen) =~= spec_u32_to_be_bytes(m.crc));
    assert(spec_parse_chunk(b) matches Ok(p) && p =~= m);
}

/// Serializing a well-formed record and parsing the result yields the record
/// back: the round trip over the wire format loses nothing.
pub proof fn lemma_chunk_round_trip(m: ChunkModel)
    requires
        wf_chunk(m),
    ensures
        spec_parse_chunk(spec_chunk_bytes(m)) == Ok::<ChunkModel, PngError>(m),
{
    assert(spec_chunk_bytes(m) + Seq::<u8>::empty() =~= spec_chunk_bytes(m));
    lemma_parse_chunk_prefix(m, Seq::empty());
}

/// A record parsed successfully is well formed, fits in the buffer it came
/// from, and re-serializes to exactly the bytes it consumed.
pub proof fn lemma_chunk_parse_serialize(b: Seq<u8>)
    requires
        spec_parse_chunk(b) is Ok,
    ensures
        ({
            let m = spec_parse_chunk(b)->Ok_0;
            &&& wf_chunk(m)
            &&& 12 + m.data.len() <= b.len()
            &&& spec_chunk_bytes(m) == b.subrange(0, 12 + m.data.len() as int)
        }),
{
    let m = spec_parse_chunk(b)->Ok_0;
    let declared = spec_u32_from_be_bytes(b.subrange(0, 4)) as int;
    lemma_u32_of_be_bytes(b.subrange(0, 4));
    lemma_u32_of_be_bytes(b.subrange(8 + declared, 12 + declared));
    assert(m.data.len() == declared);
    assert(m.data.len() as u32 == spec_u32_from_be_bytes(b.subrange(0, 4)));
    assert(spec_chunk_bytes(m) =~= b.subrange(0, 12 + m.data.len() as int));
}

/// Corrupting the payload of a serialized record while keeping the stored
/// checksum makes parsing fail with `InvalidCrc`, whenever the corruption
/// changed the checksum. (That flipping any single bit changes a CRC-32
/// checksum is a property of the polynomial itself, outside this model.)
pub proof fn lemma_corrupted_payload_rejected(m: ChunkModel, data2: Seq<u8>)
    requires
        wf_chunk(m),
        data2.len() == m.data.len(),
        crc32_of(m.ctype + data2) != m.crc,
    ensures
        ({
            let m2 = (ChunkModel { ctype: m.ctype, data: data2, crc: m.crc });
            spec_parse_chunk(spec_chunk_bytes(m2)) == Err::<ChunkModel, PngError>(
                PngError::InvalidCrc,
            )
        }),
{
    let m2 = (ChunkModel { ctype: m.ctype, data: data2, crc: m.crc });
    let b = spec_chunk_bytes(m2);
    let dlen = m2.data.len() as int;
    lemma_u32_be_bytes_of_u32(m2.data.len() as u32);
    lemma_u32_be_bytes_of_u32(m2.crc);
    assert(b.subrange(0, 4) =~= spec_u32_to_be_bytes(m2.data.len() as u32));
    assert(b.subrange(4, 8) =~= m2.ctype);
    assert(b.subrange(8, 8 + dlen) =~= m2.data);
    assert(b.subrange(8 + dlen, 12 + dlen) =~= spec_u32_to_be_bytes(m2.crc));
}

} // verus!
