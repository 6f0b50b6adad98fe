//! The ordered chunk stream of a PNG file.
use crate::chunk::spec_chunk_bytes;
use crate::chunk::spec_parse_chunk;
use crate::chunk::wf_chunk;
use crate::chunk::Chunk;
use crate::chunk::ChunkModel;
use crate::chunk::lemma_chunk_parse_serialize;
use crate::chunk::lemma_parse_chunk_prefix;
use crate::chunk_type::spec_fifth_bit;
use crate::error::PngError;
use vstd::prelude::*;
use vstd::string::StringSliceAdditionalSpecFns;

verus! {

/// The fixed 8-byte PNG file signature.
pub open spec fn spec_signature() -> Seq<u8> {
    seq![137u8, 80u8, 78u8, 71u8, 13u8, 10u8, 26u8, 10u8]
}

/// The concatenated wire form of a sequence of chunk records.
pub open spec fn spec_chunks_bytes(s: Seq<ChunkModel>) -> Seq<u8>
    decreases s.len(),
{
    if s.len() == 0 {
        Seq::empty()
    } else {
        spec_chunk_bytes(s[0]) + spec_chunks_bytes(s.drop_first())
    }
}

/// The wire form of a whole file: the signature followed by every record.
pub open spec fn spec_png_bytes(s: Seq<ChunkModel>) -> Seq<u8> {
    spec_signature() + spec_chunks_bytes(s)
}

/// What repeatedly parsing chunk records until the buffer is exhausted
/// yields: the records in order, or the first record's parse failure.
pub open spec fn spec_parse_chunks(b: Seq<u8>) -> Result<Seq<ChunkModel>, PngError>
    decreases b.len(),
{
    if b.len() == 0 {
        Ok(Seq::empty())
    } else {
        match spec_parse_chunk(b) {
            Err(e) => Err(e),
            Ok(m) => match spec_parse_chunks(b.skip(12 + m.data.len() as int)) {
                Err(e) => Err(e),
                Ok(rest) => Ok(seq![m] + rest),
            },
        }
    }
}

/// What parsing a whole file yields: the signature is checked first, then the
/// chunk records are read until the buffer is exhausted.
pub open spec fn spec_parse_png(b: Seq<u8>) -> Result<Seq<ChunkModel>, PngError> {
    if b.len() < 8 || b.subrange(0, 8) != spec_signature() {
        Err(PngError::InvalidSignature)
    } else {
        spec_parse_chunks(b.skip(8))
    }
}

/// The position of the first record whose type bytes equal `t`, or the length
/// of the sequence when no record matches.
pub open spec fn spec_first_match(s: Seq<ChunkModel>, t: Seq<u8>) -> int
    decreases s.len(),
{
    if s.len() == 0 {
        0
    } else if s[0].ctype == t {
        0
    } else {
        1 + spec_first_match(s.drop_first(), t)
    }
}

/// An ancillary record: bit 5 of the first type byte is set, so the record is
/// not critical to basic decoding.
pub open spec fn spec_is_ancillary(m: ChunkModel) -> bool {
    spec_fifth_bit(m.ctype[0])
}

/// The subsequence of ancillary records, in order.
pub open spec fn spec_ancillary_of(s: Seq<ChunkModel>) -> Seq<ChunkModel> {
    s.filter(|m: ChunkModel| spec_is_ancillary(m))
}

/// A PNG file held in memory: its ordered sequence of chunk records. The
/// signature is implicit; it is checked on parse and emitted on serialization.
#[derive(Debug, PartialEq)]
pub struct Png {
    chunks: Vec<Chunk>,
}

impl View for Png {
    type V = Seq<ChunkModel>;

    closed spec fn view(&self) -> Seq<ChunkModel> {
        self.chunks@.map_values(|c: Chunk| c@)
    }
}

impl Png {
    /// Builds a container directly from a list of records.
    pub fn from_chunks(chunks: Vec<Chunk>) -> (r: Png)
        ensures
            r@ == chunks@.map_values(|c: Chunk| c@),
    {
        Png { chunks }
    }

    /// Parses a container from raw file bytes, exactly as [`spec_parse_png`]
    /// describes: the 8-byte signature first, then records until the buffer
    /// is exhausted, propagating any record's parse failure.
    pub fn try_from(bytes: &[u8]) -> (r: Result<Png, PngError>)
        ensures
            (match r {
                Ok(p) => spec_parse_png(bytes@) == Ok::<Seq<ChunkModel>, PngError>(p@),
                Err(e) => spec_parse_png(bytes@) == Err::<Seq<ChunkModel>, PngError>(e),
            }),
    {
        let n = bytes.len();
        if n < 8 {
            return Err(PngError::InvalidSignature);
        }
        let sig: [u8; 8] = [137, 80, 78, 71, 13, 10, 26, 10];
        proof {
            assert(sig@ =~= spec_signature());
        }
        let mut i: usize = 0;
        while i < 8
            invariant
                i <= 8,
                n == bytes@.len(),
                n >= 8,
                sig@ == spec_signature(),
                forall|j: int| 0 <= j < i ==> bytes@[j] == spec_signature()[j],
            decreases 8 - i,
        {
            if bytes[i] != sig[i] {
                proof {
                    assert(bytes@.subrange(0, 8)[i as int] != spec_signature()[i as int]);
                }
                return Err(PngError::InvalidSignature);
            }
            i = i + 1;
        }
        proof {
            assert(bytes@.subrange(0, 8) =~= spec_signature());
        }
        let mut chunks: Vec<Chunk> = Vec::new();
        let mut idx: usize = 8;
        while idx < n
            invariant
                8 <= idx <= n,
                n == bytes@.len(),
                bytes@.subrange(0, 8) == spec_signature(),
                spec_parse_png(bytes@) == (match spec_parse_chunks(bytes@.skip(idx as int)) {
                    Ok(rest) => Ok::<Seq<ChunkModel>, PngError>(
                        chunks@.map_values(|c: Chunk| c@) + rest,
                    ),
                    Err(e) => Err::<Seq<ChunkModel>, PngError>(e),
                }),
            decreases n - idx,
        {
            let ghost prev = idx as int;
            let sub: &[u8] = &bytes[idx..n];
            proof {
                assert(sub@ == bytes@.skip(prev));
            }
            match Chunk::try_from(sub) {
                Err(e) => {
                    return Err(e);
                },
                Ok(c) => {
                    proof {
                        lemma_chunk_parse_serialize(sub@);
                    }
                    let consumed: usize = 12 + (c.length() as usize);
                    let ghost oldmap = chunks@.map_values(|cc: Chunk| cc@);
                    let ghost model = c@;
                    chunks.push(c);
                    idx = idx + consumed;
                    proof {
                        assert(bytes@.skip(prev).skip(consumed as int) =~= bytes@.skip(idx as int));
                        assert(chunks@.map_values(|cc: Chunk| cc@) =~= oldmap.push(model));
                        if spec_parse_chunks(bytes@.skip(idx as int)) is Ok {
                            let rest = spec_parse_chunks(bytes@.skip(idx as int))->Ok_0;
                            assert(oldmap + (seq![model] + rest) =~= oldmap.push(model) + rest);
                        }
                    }
                },
            }
        }
        proof {
            assert(bytes@.skip(n as int) =~= Seq::<u8>::empty());
            assert(chunks@.map_values(|c: Chunk| c@) + Seq::<ChunkModel>::empty()
                =~= chunks@.map_values(|c: Chunk| c@));
        }
        Ok(Png { chunks })
    }

    /// Serializes the container: the signature followed by every record's
    /// wire form, in order.
    pub fn as_bytes(&self) -> (r: Vec<u8>)
        ensures
            r@ == spec_png_bytes(self@),
    {
        let mut bytes: Vec<u8> = Vec::new();
        bytes.push(137);
        bytes.push(80);
        bytes.push(78);
        bytes.push(71);
        bytes.push(13);
        bytes.push(10);
        bytes.push(26);
        bytes.push(10);
        proof {
            assert(bytes@ =~= spec_signature());
            assert(self@.subrange(0, 0) =~= Seq::<ChunkModel>::empty());
        }
        let mut i: usize = 0;
        while i < self.chunks.len()
            invariant
                i <= self.chunks@.len(),
                self@.len() == self.chunks@.len(),
                bytes@ == spec_signature() + spec_chunks_bytes(self@.subrange(0, i as int)),
            decreases self.chunks@.len() - i,
        {
            let mut chunk_bytes = self.chunks[i].as_bytes();
            bytes.append(&mut chunk_bytes);
            proof {
                lemma_chunks_bytes_push(self@.subrange(0, i as int), self@[i as int]);
                assert(self@.subrange(0, i as int).push(self@[i as int]) =~= self@.subrange(
                    0,
                    i as int + 1,
                ));
            }
            i = i + 1;
        }
        proof {
            assert(self@.subrange(0, self@.len() as int) =~= self@);
        }
        bytes
    }

    /// Inserts `chunk` immediately before the last record, so that a trailing
    /// terminator record stays last; into an empty container it is simply
    /// placed alone.
    pub fn append_chunk(&mut self, chunk: Chunk)
        ensures
            old(self)@.len() == 0 ==> final(self)@ == seq![chunk@],
            old(self)@.len() > 0 ==> final(self)@ == old(self)@.insert(
                old(self)@.len() - 1,
                chunk@,
            ),
    {
        if self.chunks.len() == 0 {
            self.chunks.push(chunk);
            proof {
                assert(self@ =~= seq![chunk@]);
            }
        } else {
            let at = self.chunks.len() - 1;
            self.chunks.insert(at, chunk);
            proof {
                assert(self@ =~= old(self)@.insert(old(self)@.len() - 1, chunk@));
            }
        }
    }

    /// The position of the first record whose type's text form equals
    /// `chunk_type`, if any.
    fn index_of_type(&self, chunk_type: &str) -> (r: Option<usize>)
        ensures
            (match r {
                Some(i) => i < self@.len() && i as int == spec_first_match(
                    self@,
                    chunk_type.spec_bytes(),
                ),
                None => spec_first_match(self@, chunk_type.spec_bytes()) == self@.len(),
            }),
    {
        let t: &[u8] = chunk_type.as_bytes();
        let ghost tb = chunk_type.spec_bytes();
        proof {
            assert(self@.skip(0) =~= self@);
        }
        let mut i: usize = 0;
        while i < self.chunks.len()
            invariant
                i <= self.chunks@.len(),
                self@.len() == self.chunks@.len(),
                tb == chunk_type.spec_bytes(),
                t@ == tb,
                spec_first_match(self@, tb) == i + spec_first_match(self@.skip(i as int), tb),
            decreases self.chunks@.len() - i,
        {
            let c: &Chunk = &self.chunks[i];
            proof {
                use_type_invariant(c);
                assert(self@.skip(i as int)[0] == self@[i as int]);
            }
            let cb = c.chunk_type().bytes();
            let found = t.len() == 4 && t[0] == cb[0] && t[1] == cb[1] && t[2] == cb[2] && t[3]
                == cb[3];
            proof {
                if found {
                    assert(c@.ctype =~= tb);
                } else {
                    assert(c@.ctype != tb);
                }
            }
            if found {
                return Some(i);
            }
            proof {
                assert(self@.skip(i as int).drop_first() =~= self@.skip(i as int + 1));
            }
            i = i + 1;
        }
        proof {
            assert(self@.skip(self@.len() as int) =~= Seq::<ChunkModel>::empty());
        }
        None
    }

    /// Linear search for the first record whose type's text form equals
    /// `chunk_type`; absence is not an error at this layer.
    pub fn chunk_by_type(&self, chunk_type: &str) -> (r: Option<&Chunk>)
        ensures
            (match r {
                Some(c) => spec_first_match(self@, chunk_type.spec_bytes()) < self@.len() && c@
                    == self@[spec_first_match(self@, chunk_type.spec_bytes())],
                None => spec_first_match(self@, chunk_type.spec_bytes()) == self@.len(),
            }),
    {
        match self.index_of_type(chunk_type) {
            Some(i) => Some(&self.chunks[i]),
            None => None,
        }
    }

    /// Removes and returns the first record whose type's text form equals
    /// `chunk_type`; fails with `ChunkNotFound`, leaving the container
    /// unchanged, when no record matches.
    pub fn remove_chunk(&mut self, chunk_type: &str) -> (r: Result<Chunk, PngError>)
        ensures
            (match r {
                Ok(c) => {
                    let k = spec_first_match(old(self)@, chunk_type.spec_bytes());
                    &&& k < old(self)@.len()
                    &&& c@ == old(self)@[k]
                    &&& final(self)@ == old(self)@.remove(k)
                },
                Err(e) => {
                    &&& e == PngError::ChunkNotFound
                    &&& spec_first_match(old(self)@, chunk_type.spec_bytes()) == old(self)@.len()
                    &&& final(self)@ == old(self)@
                },
            }),
    {
        match self.index_of_type(chunk_type) {
            Some(i) => {
                let c = self.chunks.remove(i);
                proof {
                    assert(self@ =~= old(self)@.remove(i as int));
                }
                Ok(c)
            },
            None => Err(PngError::ChunkNotFound),
        }
    }

    /// All ancillary records (critical bit clear in their type), in container
    /// order.
    pub fn ancillary_chunks(&self) -> (r: Vec<&Chunk>)
        ensures
            r@.map_values(|c: &Chunk| c@) == spec_ancillary_of(self@),
    {
        let mut out: Vec<&Chunk> = Vec::new();
        proof {
            reveal(Seq::filter);
            assert(spec_ancillary_of(self@.subrange(0, 0)) =~= Seq::<ChunkModel>::empty());
            assert(out@.map_values(|c: &Chunk| c@) =~= Seq::<ChunkModel>::empty());
        }
        let mut i: usize = 0;
        while i < self.chunks.len()
            invariant
                i <= self.chunks@.len(),
                self@.len() == self.chunks@.len(),
                out@.map_values(|c: &Chunk| c@) == spec_ancillary_of(self@.subrange(0, i as int)),
            decreases self.chunks@.len() - i,
        {
            let c: &Chunk = &self.chunks[i];
            let ghost oldmap = out@.map_values(|cc: &Chunk| cc@);
            if !c.chunk_type().is_critical() {
                out.push(c);
            }
            proof {
                reveal(Seq::filter);
                let prefix = self@.subrange(0, i as int);
                let extended = self@.subrange(0, i as int + 1);
                assert(extended.drop_last() =~= prefix);
                assert(extended.last() == self@[i as int]);
                if spec_is_ancillary(self@[i as int]) {
                    assert(out@.map_values(|cc: &Chunk| cc@) =~= oldmap.push(self@[i as int]));
                    assert(spec_ancillary_of(extended) == spec_ancillary_of(prefix).push(
                        self@[i as int],
                    ));
                } else {
                    assert(spec_ancillary_of(extended) == spec_ancillary_of(prefix));
                }
            }
            i = i + 1;
        }
        proof {
            assert(self@.subrange(0, self@.len() as int) =~= self@);
        }
        out
    }
}

/// Appending one record to a sequence appends its wire form to the sequence's.
pub proof fn lemma_chunks_bytes_push(s: Seq<ChunkModel>, m: ChunkModel)
    ensures
        spec_chunks_bytes(s.push(m)) == spec_chunks_bytes(s) + spec_chunk_bytes(m),
    decreases s.len(),
{
    if s.len() == 0 {
        let p = s.push(m);
        assert(p[0] == m);
        assert(p.drop_first() =~= Seq::<ChunkModel>::empty());
        assert(spec_chunks_bytes(p.drop_first()) == Seq::<u8>::empty());
        assert(spec_chunk_bytes(m) + Seq::<u8>::empty() =~= Seq::<u8>::empty() + spec_chunk_bytes(
            m,
        ));
    } else {
        assert(s.push(m)[0] == s[0]);
        assert(s.push(m).drop_first() =~= s.drop_first().push(m));
        lemma_chunks_bytes_push(s.drop_first(), m);
        assert(spec_chunk_bytes(s[0]) + (spec_chunks_bytes(s.drop_first()) + spec_chunk_bytes(m))
            =~= (spec_chunk_bytes(s[0]) + spec_chunks_bytes(s.drop_first())) + spec_chunk_bytes(m));
    }
}

/// Serializing any sequence of well-formed records and parsing the result
/// yields the records back.
#[verifier::rlimit(100)]
#[verifier::spinoff_prover]
pub proof fn lemma_chunks_round_trip(s: Seq<ChunkModel>)
    requires
        forall|i: int| 0 <= i < s.len() ==> wf_chunk(#[trigger] s[i]),
    ensures
        spec_parse_chunks(spec_chunks_bytes(s)) == Ok::<Seq<ChunkModel>, PngError>(s),
    decreases s.len(),
{
    if s.len() == 0 {
        assert(spec_chunks_bytes(s).len() == 0);
        assert(spec_parse_chunks(spec_chunks_bytes(s)) == Ok::<Seq<ChunkModel>, PngError>(
            Seq::empty(),
        ));
        assert(s =~= Seq::<ChunkModel>::empty());
    } else {
        let m = s[0];
        let rest = s.drop_first();
        let b = spec_chunks_bytes(s);
        lemma_parse_chunk_prefix(m, spec_chunks_bytes(rest));
        assert(spec_chunk_bytes(m).len() == 12 + m.data.len());
        assert(b.skip(12 + m.data.len() as int) =~= spec_chunks_bytes(rest));
        lemma_chunks_round_trip(rest);
        assert(seq![m] + rest =~= s);
    }
}

/// Serializing a well-formed container reproduces it exactly on parse: the
/// full file-level round trip.
pub proof fn lemma_png_round_trip(s: Seq<ChunkModel>)
    requires
        forall|i: int| 0 <= i < s.len() ==> wf_chunk(#[trigger] s[i]),
    ensures
        spec_parse_png(spec_png_bytes(s)) == Ok::<Seq<ChunkModel>, PngError>(s),
{
    let b = spec_png_bytes(s);
    assert(b.subrange(0, 8) =~= spec_signature());
    assert(b.skip(8) =~= spec_chunks_bytes(s));
    lemma_chunks_round_trip(s);
}

/// A record sequence parsed successfully re-serializes to exactly the bytes
/// it was parsed from.
#[verifier::rlimit(100)]
#[verifier::spinoff_prover]
pub proof fn lemma_chunks_parse_serialize(b: Seq<u8>)
    requires
        spec_parse_chunks(b) is Ok,
    ensures
        spec_chunks_bytes(spec_parse_chunks(b)->Ok_0) == b,
    decreases b.len(),
{
    if b.len() == 0 {
        assert(spec_chunks_bytes(spec_parse_chunks(b)->Ok_0) =~= b);
    } else {
        let m = spec_parse_chunk(b)->Ok_0;
        lemma_chunk_parse_serialize(b);
        let k = 12 + m.data.len() as int;
        lemma_chunks_parse_serialize(b.skip(k));
        let rest = spec_parse_chunks(b.skip(k))->Ok_0;
        let s = spec_parse_chunks(b)->Ok_0;
        assert(s == seq![m] + rest);
        assert(s.len() > 0 && s[0] == m);
        assert(s.drop_first() =~= rest);
        assert(spec_chunks_bytes(s) == spec_chunk_bytes(m) + spec_chunks_bytes(rest));
        assert(spec_chunk_bytes(m) == b.subrange(0, k));
        assert(spec_chunks_bytes(rest) == b.skip(k));
        assert(b.subrange(0, k) + b.skip(k) =~= b);
    }
}

/// A container parsed successfully re-serializes to exactly the file bytes it
/// was parsed from: the inverse direction of the round trip.
#[verifier::rlimit(100)]
#[verifier::spinoff_prover]
pub proof fn lemma_png_parse_serialize(b: Seq<u8>)
    requires
        spec_parse_png(b) is Ok,
    ensures
        spec_png_bytes(spec_parse_png(b)->Ok_0) == b,
{
    lemma_chunks_parse_serialize(b.skip(8));
    assert(spec_png_bytes(spec_parse_png(b)->Ok_0) =~= b.subrange(0, 8) + b.skip(8));
    assert(b.subrange(0, 8) + b.skip(8) =~= b);
}

} // verus!
