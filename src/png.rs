use vstd::prelude::*;
use vstd::string::StringSliceAdditionalSpecFns;
use vstd::utf8::{decode_utf8, valid_utf8};

use crate::chunk::{
    chunk_wf, decode_chunk, encode_chunk, lemma_chunk_round_trip, new_chunk_view, push_all, Chunk,
    ChunkView,
};
use crate::chunk_type::{all_letters, lemma_tag_text_bytes, tag_text, ChunkType};
use crate::error::PngError;
use crate::utils::{be_u32, read_be_u32};

verus! {

/// The eight bytes that open every PNG file.
pub open spec fn png_signature() -> Seq<u8> {
    seq![137u8, 80u8, 78u8, 71u8, 13u8, 10u8, 26u8, 10u8]
}

/// `r` with `prefix` put before its chunks, when it holds chunks.
pub open spec fn prepend(prefix: Seq<ChunkView>, r: Result<Seq<ChunkView>, PngError>) -> Result<
    Seq<ChunkView>,
    PngError,
> {
    match r {
        Ok(rest) => Ok(prefix + rest),
        Err(e) => Err(e),
    }
}

/// The outcome of reading a stream of chunk records that fills `s` exactly.
pub open spec fn decode_chunks(s: Seq<u8>) -> Result<Seq<ChunkView>, PngError>
    decreases s.len(),
{
    if s.len() == 0 {
        Ok(Seq::empty())
    } else if s.len() < 12 || be_u32(s) as int > s.len() - 12 {
        Err(PngError::ChunkError)
    } else {
        let end = be_u32(s) as int + 12;
        match decode_chunk(s.subrange(0, end)) {
            Err(e) => Err(e),
            Ok(c) => prepend(seq![c], decode_chunks(s.subrange(end, s.len() as int))),
        }
    }
}

/// The outcome of reading a whole file: the signature, then chunk records.
pub open spec fn decode_file(b: Seq<u8>) -> Result<Seq<ChunkView>, PngError> {
    if b.len() < 8 || b.subrange(0, 8) != png_signature() {
        Err(PngError::ChunkHeaderError)
    } else {
        decode_chunks(b.subrange(8, b.len() as int))
    }
}

/// The records of a chunk sequence, one after another.
pub open spec fn encode_all(cs: Seq<ChunkView>) -> Seq<u8> {
    cs.map_values(|c: ChunkView| encode_chunk(c)).flatten()
}

/// The bytes of a whole file holding the chunks `cs`.
pub open spec fn encode_file(cs: Seq<ChunkView>) -> Seq<u8> {
    png_signature() + encode_all(cs)
}

/// Every chunk of the sequence is well formed.
pub open spec fn all_wf(cs: Seq<ChunkView>) -> bool {
    forall|i: int| 0 <= i < cs.len() ==> #[trigger] chunk_wf(cs[i])
}

/// The chunk's type reads as the text `s`.
pub open spec fn has_tag(c: ChunkView, s: Seq<char>) -> bool {
    tag_text(c.tag) == s
}

/// Some chunk of the sequence has the type `s`.
pub open spec fn has_type(cs: Seq<ChunkView>, s: Seq<char>) -> bool {
    exists|i: int| 0 <= i < cs.len() && #[trigger] has_tag(cs[i], s)
}

/// The `i`-th chunk is the first of type `s`.
pub open spec fn is_first_of_type(cs: Seq<ChunkView>, s: Seq<char>, i: int) -> bool {
    &&& 0 <= i < cs.len()
    &&& has_tag(cs[i], s)
    &&& forall|j: int| 0 <= j < i ==> !#[trigger] has_tag(cs[j], s)
}

/// A PNG file: its signature, which is fixed, and its chunks in file order.
#[derive(Debug)]
pub struct Png {
    chunks: Vec<Chunk>,
}

impl View for Png {
    type V = Seq<ChunkView>;

    closed spec fn view(&self) -> Seq<ChunkView> {
        self.chunks@.map_values(|c: Chunk| c@)
    }
}

impl Png {
    /// Every chunk is well formed.
    pub open spec fn wf(&self) -> bool {
        all_wf(self@)
    }

    /// Reads a whole file. Fails with `ChunkHeaderError` unless it starts
    /// with the PNG signature, then with the error of the first chunk record
    /// that cannot be read; a record cut short is a `ChunkError`.
    pub fn from_bytes(bytes: &[u8]) -> (r: Result<Png, PngError>)
        ensures
            r is Ok <==> decode_file(bytes@) is Ok,
            r matches Ok(p) ==> decode_file(bytes@) == Ok::<Seq<ChunkView>, PngError>(p@)
                && p.wf(),
            r matches Err(e) ==> decode_file(bytes@) == Err::<Seq<ChunkView>, PngError>(e),
    {
        let n = bytes.len();
        if n < 8 || !has_signature(bytes) {
            return Err(PngError::ChunkHeaderError);
        }
        let mut chunks: Vec<Chunk> = Vec::new();
        let mut pos: usize = 8;
        let ghost whole = bytes@.subrange(8, n as int);
        assert(prepend(chunks@.map_values(|c: Chunk| c@), decode_chunks(whole)) == decode_chunks(
            whole,
        )) by {
            assert(chunks@.map_values(|c: Chunk| c@) =~= Seq::<ChunkView>::empty());
            match decode_chunks(whole) {
                Ok(rest) => {
                    assert(Seq::<ChunkView>::empty() + rest =~= rest);
                },
                Err(_) => {},
            }
        }
        while pos < n
            invariant
                8 <= pos <= n,
                n == bytes@.len(),
                whole == bytes@.subrange(8, n as int),
                decode_file(bytes@) == decode_chunks(whole),
                decode_chunks(whole) == prepend(
                    chunks@.map_values(|c: Chunk| c@),
                    decode_chunks(bytes@.subrange(pos as int, n as int)),
                ),
                all_wf(chunks@.map_values(|c: Chunk| c@)),
            decreases n - pos,
        {
            let ghost rest = bytes@.subrange(pos as int, n as int);
            let ghost views = chunks@.map_values(|c: Chunk| c@);
            let rem = n - pos;
            if rem < 12 {
                return Err(PngError::ChunkError);
            }
            let len = read_be_u32(&bytes[pos..n]);
            if len as usize > rem - 12 {
                return Err(PngError::ChunkError);
            }
            let end = pos + 12 + len as usize;
            assert(rest.subrange(0, end - pos) =~= bytes@.subrange(pos as int, end as int));
            assert(rest.subrange(end - pos, rest.len() as int) =~= bytes@.subrange(
                end as int,
                n as int,
            ));
            match Chunk::from_record(&bytes[pos..end]) {
                Err(e) => {
                    return Err(e);
                },
                Ok(c) => {
                    chunks.push(c);
                    pos = end;
                    proof {
                        let nviews = chunks@.map_values(|c: Chunk| c@);
                        assert(nviews =~= views + seq![c@]);
                        match decode_chunks(bytes@.subrange(pos as int, n as int)) {
                            Ok(tail) => {
                                assert(views + (seq![c@] + tail) =~= nviews + tail);
                            },
                            Err(_) => {},
                        }
                        assert forall|i: int| 0 <= i < nviews.len() implies #[trigger] chunk_wf(
                            nviews[i],
                        ) by {
                            if i < views.len() {
                                assert(nviews[i] == views[i]);
                            }
                        }
                    }
                },
            }
        }
        proof {
            let views = chunks@.map_values(|c: Chunk| c@);
            assert(bytes@.subrange(n as int, n as int) =~= Seq::<u8>::empty());
            assert(views + Seq::<ChunkView>::empty() =~= views);
        }
        Ok(Png { chunks })
    }

    /// The chunks, in file order.
    pub fn chunks(&self) -> (r: &[Chunk])
        ensures
            r@.map_values(|c: Chunk| c@) == self@,
    {
        self.chunks.as_slice()
    }

    /// Adds a chunk after all others.
    pub fn append_chunk(&mut self, chunk: Chunk)
        ensures
            final(self)@ == old(self)@.push(chunk@),
            old(self).wf() && chunk.wf() ==> final(self).wf(),
    {
        let ghost c = chunk@;
        self.chunks.push(chunk);
        proof {
            assert(self@ =~= old(self)@.push(c));
            assert forall|i: int| 0 <= i < self@.len() && old(self).wf() && chunk_wf(c)
                implies #[trigger] chunk_wf(self@[i]) by {
                if i < old(self)@.len() {
                    assert(self@[i] == old(self)@[i]);
                }
            }
        }
    }

    /// Makes a chunk of the type named by `chunk_type` and of `data`, and adds
    /// it after all others. Fails with `ChunkTypeError`, changing nothing,
    /// unless the type's UTF-8 bytes are four ASCII letters.
    pub fn embed(&mut self, chunk_type: &str, data: Vec<u8>) -> (r: Result<(), PngError>)
        requires
            data@.len() <= u32::MAX,
        ensures
            r is Ok <==> all_letters(chunk_type.spec_bytes()),
            r is Ok ==> final(self)@ == old(self)@.push(
                new_chunk_view(chunk_type.spec_bytes(), data@),
            ),
            r matches Err(e) ==> e == PngError::ChunkTypeError && final(self)@ == old(self)@,
            old(self).wf() ==> final(self).wf(),
    {
        match ChunkType::from_tag_str(chunk_type) {
            Err(e) => Err(e),
            Ok(t) => {
                let chunk = Chunk::new(t, data);
                self.append_chunk(chunk);
                Ok(())
            },
        }
    }

    /// The index of the first chunk whose type reads as `chunk_type`.
    fn position_of_type(&self, chunk_type: &str) -> (r: Option<usize>)
        requires
            self.wf(),
        ensures
            r matches Some(i) ==> is_first_of_type(self@, chunk_type@, i as int),
            r is None <==> !has_type(self@, chunk_type@),
    {
        let wanted = chunk_type.as_bytes();
        let mut i: usize = 0;
        while i < self.chunks.len()
            invariant
                0 <= i <= self@.len(),
                self.wf(),
                wanted@ == chunk_type.spec_bytes(),
                forall|j: int| 0 <= j < i ==> !#[trigger] has_tag(self@[j], chunk_type@),
            decreases self@.len() - i,
        {
            let t = self.chunks[i].chunk_type().bytes();
            proof {
                assert(self@[i as int] == self.chunks@[i as int]@);
                assert(chunk_wf(self@[i as int]));
                lemma_tag_text_bytes(t@, chunk_type@);
            }
            if wanted.len() == 4 && wanted[0] == t[0] && wanted[1] == t[1] && wanted[2] == t[2]
                && wanted[3] == t[3] {
                assert(wanted@ =~= t@);
                assert(has_tag(self@[i as int], chunk_type@));
                return Some(i);
            }
            assert(wanted@ != t@);
            i = i + 1;
        }
        None
    }

    /// The first chunk whose type reads as `chunk_type`, if any.
    pub fn chunk_by_type(&self, chunk_type: &str) -> (r: Option<&Chunk>)
        requires
            self.wf(),
        ensures
            r is None <==> !has_type(self@, chunk_type@),
            r matches Some(c) ==> exists|i: int|
                is_first_of_type(self@, chunk_type@, i) && c@ == #[trigger] self@[i],
    {
        match self.position_of_type(chunk_type) {
            None => None,
            Some(i) => {
                assert(self@[i as int] == self.chunks@[i as int]@);
                Some(&self.chunks[i])
            },
        }
    }

    /// The data of the first chunk whose type reads as `chunk_type`, as text.
    /// Gives `Ok(None)` when there is no such chunk, and `EncodingError` when
    /// its data is not valid UTF-8.
    pub fn data_string_by_type(&self, chunk_type: &str) -> (r: Result<Option<String>, PngError>)
        requires
            self.wf(),
        ensures
            !has_type(self@, chunk_type@) ==> r == Ok::<Option<String>, PngError>(None),
            has_type(self@, chunk_type@) ==> exists|i: int|
                is_first_of_type(self@, chunk_type@, i) && {
                    let d = #[trigger] self@[i].data;
                    &&& valid_utf8(d) ==> (r matches Ok(Some(s)) && s@ == decode_utf8(d))
                    &&& !valid_utf8(d) ==> r == Err::<Option<String>, PngError>(
                        PngError::EncodingError,
                    )
                },
    {
        match self.chunk_by_type(chunk_type) {
            None => Ok(None),
            Some(c) => match c.data_as_string() {
                Ok(s) => Ok(Some(s)),
                Err(e) => Err(e),
            },
        }
    }

    /// Removes the first chunk whose type reads as `chunk_type` and gives it
    /// back; the others keep their order. Fails with `NotFoundChunkType`,
    /// changing nothing, when there is no such chunk.
    pub fn remove_chunk(&mut self, chunk_type: &str) -> (r: Result<Chunk, PngError>)
        requires
            old(self).wf(),
        ensures
            r matches Ok(c) ==> exists|i: int|
                is_first_of_type(old(self)@, chunk_type@, i) && c@ == #[trigger] old(self)@[i]
                    && final(self)@ == old(self)@.remove(i),
            r is Err <==> !has_type(old(self)@, chunk_type@),
            r matches Err(e) ==> e == PngError::NotFoundChunkType && final(self)@ == old(self)@,
            final(self).wf(),
    {
        match self.position_of_type(chunk_type) {
            None => Err(PngError::NotFoundChunkType),
            Some(i) => {
                let ghost before = self@;
                let c = self.chunks.remove(i);
                proof {
                    assert(self@ =~= before.remove(i as int));
                    assert(c@ == before[i as int]);
                    assert forall|j: int| 0 <= j < self@.len() implies #[trigger] chunk_wf(
                        self@[j],
                    ) by {
                        if j < i {
                            assert(self@[j] == before[j]);
                        } else {
                            assert(self@[j] == before[j + 1]);
                        }
                    }
                }
                Ok(c)
            },
        }
    }

    /// The types of all chunks as text, in file order.
    pub fn chunk_types(&self) -> (r: Vec<String>)
        requires
            self.wf(),
        ensures
            r@.len() == self@.len(),
            forall|i: int| 0 <= i < r@.len() ==> (#[trigger] r@[i])@ == tag_text(self@[i].tag),
    {
        let mut out: Vec<String> = Vec::new();
        let mut i: usize = 0;
        while i < self.chunks.len()
            invariant
                0 <= i <= self@.len(),
                self.wf(),
                out@.len() == i,
                forall|j: int| 0 <= j < i ==> (#[trigger] out@[j])@ == tag_text(self@[j].tag),
            decreases self@.len() - i,
        {
            assert(self@[i as int] == self.chunks@[i as int]@);
            assert(chunk_wf(self@[i as int]));
            let s = self.chunks[i].chunk_type().to_string();
            out.push(s);
            i = i + 1;
        }
        out
    }

    /// The whole file: the signature, then each chunk's record in order.
    pub fn as_bytes(&self) -> (r: Vec<u8>)
        ensures
            r@ == encode_file(self@),
    {
        let mut out: Vec<u8> = vec![137u8, 80u8, 78u8, 71u8, 13u8, 10u8, 26u8, 10u8];
        assert(out@ =~= png_signature() + encode_all(self@.take(0))) by {
            assert(self@.take(0).map_values(|c: ChunkView| encode_chunk(c)) =~= Seq::<
                Seq<u8>,
            >::empty());
        }
        let mut i: usize = 0;
        while i < self.chunks.len()
            invariant
                0 <= i <= self@.len(),
                out@ == png_signature() + encode_all(self@.take(i as int)),
            decreases self@.len() - i,
        {
            let record = self.chunks[i].as_bytes();
            push_all(&mut out, record.as_slice());
            proof {
                let m0 = self@.take(i as int).map_values(|c: ChunkView| encode_chunk(c));
                let m1 = self@.take(i + 1).map_values(|c: ChunkView| encode_chunk(c));
                assert(self@[i as int] == self.chunks@[i as int]@);
                assert(m1 =~= m0.push(encode_chunk(self@[i as int])));
                m0.lemma_flatten_push(encode_chunk(self@[i as int]));
            }
            i = i + 1;
        }
        assert(self@.take(i as int) =~= self@);
        out
    }
}

/// Whether `bytes` starts with the PNG signature.
fn has_signature(bytes: &[u8]) -> (r: bool)
    requires
        bytes@.len() >= 8,
    ensures
        r == (bytes@.subrange(0, 8) == png_signature()),
{
    let r = bytes[0] == 137 && bytes[1] == 80 && bytes[2] == 78 && bytes[3] == 71 && bytes[4] == 13
        && bytes[5] == 10 && bytes[6] == 26 && bytes[7] == 10;
    assert(r ==> bytes@.subrange(0, 8) =~= png_signature());
    assert(bytes@.subrange(0, 8) == png_signature() ==> bytes@.subrange(0, 8)[0] == 137u8);
    r
}

/// Writing a file of well-formed chunks and reading it back gives the same
/// chunks in the same order.
pub proof fn lemma_file_round_trip(cs: Seq<ChunkView>)
    requires
        all_wf(cs),
    ensures
        decode_file(encode_file(cs)) == Ok::<Seq<ChunkView>, PngError>(cs),
{
    let b = encode_file(cs);
    assert(b.subrange(0, 8) =~= png_signature());
    assert(b.subrange(8, b.len() as int) =~= encode_all(cs));
    lemma_chunks_round_trip(cs);
}

/// Reading the records of well-formed chunks gives those chunks.
pub proof fn lemma_chunks_round_trip(cs: Seq<ChunkView>)
    requires
        all_wf(cs),
    ensures
        decode_chunks(encode_all(cs)) == Ok::<Seq<ChunkView>, PngError>(cs),
    decreases cs.len(),
{
    if cs.len() == 0 {
        assert(cs.map_values(|c: ChunkView| encode_chunk(c)) =~= Seq::<Seq<u8>>::empty());
        assert(encode_all(cs) =~= Seq::<u8>::empty());
        assert(cs =~= Seq::<ChunkView>::empty());
    } else {
        let c = cs[0];
        let tail = cs.drop_first();
        lemma_all_wf_drop_first(cs);
        lemma_encode_all_first(cs);
        lemma_chunk_round_trip(c);
        lemma_decode_chunks_step(encode_chunk(c), encode_all(tail), c);
        lemma_chunks_round_trip(tail);
        let s = encode_all(cs);
        assert(decode_chunks(s) == prepend(seq![c], decode_chunks(encode_all(tail))));
        assert(seq![c] + tail =~= cs);
    }
}

/// The chunks after the first of a well-formed sequence are well formed too.
proof fn lemma_all_wf_drop_first(cs: Seq<ChunkView>)
    requires
        cs.len() > 0,
        all_wf(cs),
    ensures
        chunk_wf(cs[0]),
        all_wf(cs.drop_first()),
{
    let tail = cs.drop_first();
    assert forall|i: int| 0 <= i < tail.len() implies #[trigger] chunk_wf(tail[i]) by {
        assert(tail[i] == cs[i + 1]);
    }
}

/// The records of a non-empty sequence: the first chunk's, then the others'.
proof fn lemma_encode_all_first(cs: Seq<ChunkView>)
    requires
        cs.len() > 0,
    ensures
        encode_all(cs) == encode_chunk(cs[0]) + encode_all(cs.drop_first()),
{
    let m = cs.map_values(|c: ChunkView| encode_chunk(c));
    assert(m.drop_first() =~= cs.drop_first().map_values(|c: ChunkView| encode_chunk(c)));
}

/// A stream that starts with a readable record reads as that record's chunk
/// followed by what the rest of the stream reads as.
proof fn lemma_decode_chunks_step(e: Seq<u8>, rest: Seq<u8>, c: ChunkView)
    requires
        decode_chunk(e) == Ok::<ChunkView, PngError>(c),
    ensures
        decode_chunks(e + rest) == prepend(seq![c], decode_chunks(rest)),
{
    reveal(decode_chunk);
    let s = e + rest;
    assert(e.len() >= 12);
    assert(s[0] == e[0] && s[1] == e[1] && s[2] == e[2] && s[3] == e[3]);
    assert(be_u32(s) == be_u32(e));
    let end = be_u32(s) as int + 12;
    assert(end == e.len());
    assert(s.subrange(0, end) =~= e);
    assert(s.subrange(end, s.len() as int) =~= rest);
}

/// With exactly one chunk of type `s`, removing it leaves none of that type,
/// so a second removal finds nothing.
pub proof fn lemma_remove_only_match(cs: Seq<ChunkView>, s: Seq<char>, i: int)
    requires
        is_first_of_type(cs, s, i),
        forall|j: int| 0 <= j < cs.len() && j != i ==> !#[trigger] has_tag(cs[j], s),
    ensures
        !has_type(cs.remove(i), s),
{
    let rest = cs.remove(i);
    assert forall|j: int| 0 <= j < rest.len() implies !#[trigger] has_tag(rest[j], s) by {
        if j < i {
            assert(rest[j] == cs[j]);
        } else {
            assert(rest[j] == cs[j + 1]);
        }
    }
}

} // verus!
