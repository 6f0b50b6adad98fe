//! The byte-level operations behind the four commands a front end offers:
//! each takes the raw bytes of a PNG file and plain values, and returns the
//! new file bytes or the value looked up. Reading and writing files, and
//! printing, stay with the caller.
use crate::chunk::crc32_of;
use crate::chunk::Chunk;
use crate::chunk::ChunkModel;
use crate::chunk_type::spec_letters;
use crate::chunk_type::ChunkType;
use crate::error::PngError;
use crate::png::spec_ancillary_of;
use crate::png::spec_first_match;
use crate::png::spec_parse_png;
use crate::png::spec_png_bytes;
use crate::png::Png;
use crate::text::spec_bytes_as_chars;
use vstd::prelude::*;
use vstd::string::StrSliceExecFns;
use vstd::string::StringSliceAdditionalSpecFns;
use vstd::utf8::decode_utf8;
use vstd::utf8::valid_utf8;

verus! {

/// What encoding a message yields: the file is parsed, the type text is
/// validated, and a fresh record carrying the message is inserted before the
/// terminating record; the result is the re-serialized file.
pub open spec fn spec_encode(b: Seq<u8>, t: Seq<u8>, msg: Seq<u8>) -> Result<Seq<u8>, PngError> {
    match spec_parse_png(b) {
        Err(e) => Err(e),
        Ok(s) => if !spec_letters(t) {
            Err(PngError::InvalidChunkType)
        } else {
            let m = (ChunkModel { ctype: t, data: msg, crc: crc32_of(t + msg) });
            let s2 = if s.len() == 0 {
                seq![m]
            } else {
                s.insert(s.len() - 1, m)
            };
            Ok(spec_png_bytes(s2))
        },
    }
}

/// What decoding yields: the text payload of the first record whose type text
/// equals the request, or the first failure on the way to it.
pub open spec fn spec_decode(b: Seq<u8>, t: Seq<u8>) -> Result<Seq<char>, PngError> {
    match spec_parse_png(b) {
        Err(e) => Err(e),
        Ok(s) => {
            let k = spec_first_match(s, t);
            if k == s.len() {
                Err(PngError::ChunkNotFound)
            } else if !valid_utf8(s[k].data) {
                Err(PngError::Utf8DecodeError)
            } else {
                Ok(decode_utf8(s[k].data))
            }
        },
    }
}

/// What removal yields: the file re-serialized without the first record whose
/// type text equals the request.
pub open spec fn spec_remove(b: Seq<u8>, t: Seq<u8>) -> Result<Seq<u8>, PngError> {
    match spec_parse_png(b) {
        Err(e) => Err(e),
        Ok(s) => {
            let k = spec_first_match(s, t);
            if k == s.len() {
                Err(PngError::ChunkNotFound)
            } else {
                Ok(spec_png_bytes(s.remove(k)))
            }
        },
    }
}

/// Parses the file bytes, builds a record from the chunk type text and the
/// message, and appends it immediately before the terminating record,
/// returning the re-serialized file bytes.
pub fn encode(bytes: &[u8], chunk_type: &str, message: &str) -> (r: Result<Vec<u8>, PngError>)
    requires
        message.spec_bytes().len() <= u32::MAX,
    ensures
        (match r {
            Ok(v) => spec_encode(bytes@, chunk_type.spec_bytes(), message.spec_bytes())
                == Ok::<Seq<u8>, PngError>(v@),
            Err(e) => spec_encode(bytes@, chunk_type.spec_bytes(), message.spec_bytes())
                == Err::<Seq<u8>, PngError>(e),
        }),
{
    let mut png = match Png::try_from(bytes) {
        Ok(p) => p,
        Err(e) => {
            return Err(e);
        },
    };
    let ct = match ChunkType::from_str(chunk_type) {
        Ok(ct) => ct,
        Err(e) => {
            return Err(e);
        },
    };
    let data = message.as_bytes_vec();
    let secret_chunk = Chunk::new(ct, data);
    let ghost s = png@;
    let ghost m = secret_chunk@;
    png.append_chunk(secret_chunk);
    proof {
        let t = chunk_type.spec_bytes();
        let msg = message.spec_bytes();
        assert(m =~= (ChunkModel { ctype: t, data: msg, crc: crc32_of(t + msg) }));
        if s.len() == 0 {
            assert(png@ =~= seq![m]);
        }
    }
    Ok(png.as_bytes())
}

/// Parses the file bytes and returns the text payload of the first record of
/// the given type; fails with `ChunkNotFound` when no record matches and with
/// `Utf8DecodeError` when the payload is not text.
pub fn decode(bytes: &[u8], chunk_type: &str) -> (r: Result<String, PngError>)
    ensures
        (match r {
            Ok(msg) => spec_decode(bytes@, chunk_type.spec_bytes()) == Ok::<Seq<char>, PngError>(
                msg@,
            ),
            Err(e) => spec_decode(bytes@, chunk_type.spec_bytes()) == Err::<Seq<char>, PngError>(e),
        }),
{
    let png = match Png::try_from(bytes) {
        Ok(p) => p,
        Err(e) => {
            return Err(e);
        },
    };
    match png.chunk_by_type(chunk_type) {
        Some(chunk) => chunk.data_as_string(),
        None => Err(PngError::ChunkNotFound),
    }
}

/// Parses the file bytes, removes the first record of the given type (failing
/// with `ChunkNotFound` when none matches), and returns the re-serialized
/// file bytes.
pub fn remove(bytes: &[u8], chunk_type: &str) -> (r: Result<Vec<u8>, PngError>)
    ensures
        (match r {
            Ok(v) => spec_remove(bytes@, chunk_type.spec_bytes()) == Ok::<Seq<u8>, PngError>(v@),
            Err(e) => spec_remove(bytes@, chunk_type.spec_bytes()) == Err::<Seq<u8>, PngError>(e),
        }),
{
    let mut png = match Png::try_from(bytes) {
        Ok(p) => p,
        Err(e) => {
            return Err(e);
        },
    };
    match png.remove_chunk(chunk_type) {
        Ok(_) => Ok(png.as_bytes()),
        Err(e) => Err(e),
    }
}

/// Parses the file bytes and returns the type text of every ancillary record,
/// in container order: the chunk types that can be searched for messages.
pub fn ancillary_type_texts(bytes: &[u8]) -> (r: Result<Vec<String>, PngError>)
    ensures
        (match r {
            Ok(texts) => spec_parse_png(bytes@) is Ok && ({
                let anc = spec_ancillary_of(spec_parse_png(bytes@)->Ok_0);
                &&& texts@.len() == anc.len()
                &&& forall|i: int|
                    0 <= i < anc.len() ==> #[trigger] texts@[i]@ == spec_bytes_as_chars(
                        anc[i].ctype,
                    )
            }),
            Err(e) => spec_parse_png(bytes@) == Err::<Seq<ChunkModel>, PngError>(e),
        }),
{
    let png = match Png::try_from(bytes) {
        Ok(p) => p,
        Err(e) => {
            return Err(e);
        },
    };
    let anc = png.ancillary_chunks();
    let ghost models = anc@.map_values(|c: &Chunk| c@);
    let mut texts: Vec<String> = Vec::new();
    let mut i: usize = 0;
    while i < anc.len()
        invariant
            i <= anc@.len(),
            texts@.len() == i,
            models == anc@.map_values(|c: &Chunk| c@),
            models.len() == anc@.len(),
            forall|j: int|
                0 <= j < i ==> #[trigger] texts@[j]@ == spec_bytes_as_chars(models[j].ctype),
        decreases anc@.len() - i,
    {
        let text = anc[i].chunk_type().to_text();
        texts.push(text);
        i = i + 1;
    }
    Ok(texts)
}

} // verus!
