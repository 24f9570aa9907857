use vstd::prelude::*;
use crate::chunk::{chunk_bytes, chunk_wf, lemma_chunk_round_trip, parse_chunk, push_all, Chunk, ChunkView};
use crate::chunk_type::{ascii_bytes, parse_type_str, valid_type_str, ChunkType};
use crate::error::PngError;

verus! {

broadcast use vstd::seq_lib::group_seq_properties;

/// The eight bytes that open every PNG stream.
pub open spec fn png_signature() -> Seq<u8> {
    seq![137u8, 80u8, 78u8, 71u8, 13u8, 10u8, 26u8, 10u8]
}

/// The wire forms of the chunks, back to back.
pub open spec fn chunks_bytes(cs: Seq<ChunkView>) -> Seq<u8> {
    cs.map_values(|c: ChunkView| chunk_bytes(c)).flatten()
}

/// The wire form of a PNG stream holding `cs`.
pub open spec fn png_bytes(cs: Seq<ChunkView>) -> Seq<u8> {
    png_signature() + chunks_bytes(cs)
}

/// Puts `prefix` in front of a successful result; an error stays as it is.
pub open spec fn prepend(prefix: Seq<ChunkView>, r: Result<Seq<ChunkView>, PngError>) -> Result<Seq<ChunkView>, PngError> {
    match r {
        Ok(s) => Ok(prefix + s),
        Err(e) => Err(e),
    }
}

/// Decodes chunks one after another until `b` is used up; the first failure ends it.
pub open spec fn parse_chunks(b: Seq<u8>) -> Result<Seq<ChunkView>, PngError>
    decreases b.len(),
{
    if b.len() == 0 {
        Ok(Seq::empty())
    } else {
        match parse_chunk(b) {
            Err(e) => Err(e),
            Ok((c, n)) => if 0 < n <= b.len() {
                prepend(seq![c], parse_chunks(b.subrange(n, b.len() as int)))
            } else {
                Err(PngError::TruncatedInput)
            },
        }
    }
}

/// Decodes a whole PNG stream: the signature, then chunks to the end.
pub open spec fn parse_png(b: Seq<u8>) -> Result<Seq<ChunkView>, PngError> {
    if b.len() < 8 || b.subrange(0, 8) != png_signature() {
        Err(PngError::InvalidSignature)
    } else {
        parse_chunks(b.subrange(8, b.len() as int))
    }
}

/// `i` is the position of the first chunk of type `t`.
pub open spec fn is_first_of_type(cs: Seq<ChunkView>, t: Seq<u8>, i: int) -> bool {
    &&& 0 <= i < cs.len()
    &&& cs[i].chunk_type == t
    &&& forall|j: int| 0 <= j < i ==> (#[trigger] cs[j]).chunk_type != t
}

/// The position of the first chunk of type `t`, if there is one.
pub open spec fn find_index(cs: Seq<ChunkView>, t: Seq<u8>) -> Option<int> {
    if exists|i: int| is_first_of_type(cs, t, i) {
        Some(choose|i: int| is_first_of_type(cs, t, i))
    } else {
        None
    }
}

/// There is at most one first chunk of a type.
pub proof fn lemma_first_unique(cs: Seq<ChunkView>, t: Seq<u8>, i: int)
    requires
        is_first_of_type(cs, t, i),
    ensures
        find_index(cs, t) == Some(i),
{
    let k = choose|k: int| is_first_of_type(cs, t, k);
    assert(is_first_of_type(cs, t, k));
    if k < i {
        assert(cs[k].chunk_type != t);
    } else if i < k {
        assert(cs[i].chunk_type != t);
    }
}

/// No chunk of type `t` means no first one.
pub proof fn lemma_none_of_type(cs: Seq<ChunkView>, t: Seq<u8>)
    requires
        forall|j: int| 0 <= j < cs.len() ==> (#[trigger] cs[j]).chunk_type != t,
    ensures
        find_index(cs, t) is None,
{
    if exists|i: int| is_first_of_type(cs, t, i) {
        let i = choose|i: int| is_first_of_type(cs, t, i);
        assert(cs[i].chunk_type == t);
    }
}

/// A PNG stream in memory: the fixed signature and an ordered list of chunks.
#[derive(Debug)]
pub struct Png {
    chunks: Vec<Chunk>,
}

impl View for Png {
    type V = Seq<ChunkView>;

    closed spec fn view(&self) -> Seq<ChunkView> {
        self.chunks@.map_values(|c: Chunk| c@)
    }
}

impl Png {
    /// The PNG signature.
    pub fn standard_header() -> (r: [u8; 8])
        ensures
            r@ == png_signature(),
    {
        let r: [u8; 8] = [137, 80, 78, 71, 13, 10, 26, 10];
        assert(r@ =~= png_signature());
        r
    }

    /// A stream holding `chunks`, in that order.
    pub fn from_chunks(chunks: Vec<Chunk>) -> (r: Png)
        ensures
            r@ == chunks@.map_values(|c: Chunk| c@),
    {
        Png { chunks }
    }

    /// The chunks, in stream order.
    pub fn chunks(&self) -> (r: &[Chunk])
        ensures
            r@.map_values(|c: Chunk| c@) == self@,
    {
        self.chunks.as_slice()
    }

    /// Adds `chunk` at the end.
    pub fn append_chunk(&mut self, chunk: Chunk)
        ensures
            final(self)@ == old(self)@.push(chunk@),
    {
        self.chunks.push(chunk);
        assert(self@ =~= old(self)@.push(chunk@));
    }

    /// The position of the first chunk whose type bytes are those of `t`.
    fn position_of(&self, t: &ChunkType) -> (r: Option<usize>)
        ensures
            r matches Some(i) ==> is_first_of_type(self@, t@, i as int),
            r is None ==> forall|j: int| 0 <= j < self@.len() ==> (#[trigger] self@[j]).chunk_type != t@,
    {
        let mut i: usize = 0;
        while i < self.chunks.len()
            invariant
                0 <= i <= self@.len(),
                self@.len() == self.chunks@.len(),
                forall|j: int| 0 <= j < i ==> (#[trigger] self@[j]).chunk_type != t@,
            decreases self.chunks@.len() - i,
        {
            if self.chunks[i].chunk_type().equals(t) {
                return Some(i);
            }
            i += 1;
        }
        None
    }

    /// The first chunk whose type is spelled by `chunk_type`; an error when `chunk_type` is not
    /// four ASCII letters.
    pub fn chunk_by_type(&self, chunk_type: &str) -> (r: Result<Option<&Chunk>, PngError>)
        ensures
            r is Err <==> !valid_type_str(chunk_type@),
            r matches Err(e) ==> parse_type_str(chunk_type@) == Err::<Seq<u8>, PngError>(e),
            r matches Ok(found) ==> match find_index(self@, ascii_bytes(chunk_type@)) {
                Some(i) => found matches Some(c) && c@ == self@[i],
                None => found is None,
            },
    {
        let t = match ChunkType::from_string(chunk_type) {
            Ok(t) => t,
            Err(e) => {
                return Err(e);
            },
        };
        match self.position_of(&t) {
            Some(i) => {
                proof {
                    lemma_first_unique(self@, t@, i as int);
                }
                Ok(Some(&self.chunks[i]))
            },
            None => {
                proof {
                    lemma_none_of_type(self@, t@);
                }
                Ok(None)
            },
        }
    }

    /// Takes out the first chunk whose type is spelled by `chunk_type` and returns it.
    pub fn remove_chunk(&mut self, chunk_type: &str) -> (r: Result<Chunk, PngError>)
        ensures
            !valid_type_str(chunk_type@) ==> (r matches Err(e) && parse_type_str(chunk_type@)
                == Err::<Seq<u8>, PngError>(e)),
            valid_type_str(chunk_type@) ==> match find_index(old(self)@, ascii_bytes(chunk_type@)) {
                Some(i) => r matches Ok(c) && c@ == old(self)@[i] && final(self)@ == old(self)@.remove(i),
                None => r matches Err(e) && e == PngError::ChunkNotFound,
            },
            r is Err ==> final(self)@ == old(self)@,
    {
        let t = match ChunkType::from_string(chunk_type) {
            Ok(t) => t,
            Err(e) => {
                return Err(e);
            },
        };
        match self.position_of(&t) {
            Some(i) => {
                proof {
                    lemma_first_unique(self@, t@, i as int);
                }
                let c = self.chunks.remove(i);
                assert(self@ =~= old(self)@.remove(i as int));
                Ok(c)
            },
            None => {
                proof {
                    lemma_none_of_type(self@, t@);
                }
                Err(PngError::ChunkNotFound)
            },
        }
    }

    /// The wire form: the signature, then each chunk's wire form in order. Decoding it gives
    /// these chunks back.
    pub fn as_bytes(&self) -> (r: Vec<u8>)
        ensures
            r@ == png_bytes(self@),
            forall|i: int| 0 <= i < self@.len() ==> chunk_wf(#[trigger] self@[i]),
            parse_png(r@) == Ok::<Seq<ChunkView>, PngError>(self@),
    {
        let header = Png::standard_header();
        let mut out: Vec<u8> = Vec::new();
        let mut k: usize = 0;
        while k < 8
            invariant
                0 <= k <= 8,
                header@ == png_signature(),
                out@ =~= png_signature().subrange(0, k as int),
            decreases 8 - k,
        {
            out.push(header[k]);
            k += 1;
        }
        let mut i: usize = 0;
        while i < self.chunks.len()
            invariant
                0 <= i <= self.chunks@.len(),
                self@.len() == self.chunks@.len(),
                out@ == png_signature() + chunks_bytes(self@.subrange(0, i as int)),
                forall|j: int| 0 <= j < i ==> chunk_wf(#[trigger] self@[j]),
            decreases self.chunks@.len() - i,
        {
            let bytes = self.chunks[i].as_bytes();
            let ghost before = out@;
            push_all(&mut out, bytes.as_slice());
            proof {
                lemma_chunks_bytes_prefix(self@, i as int);
            }
            i += 1;
        }
        assert(self@.subrange(0, self@.len() as int) =~= self@);
        proof {
            lemma_png_round_trip(self@);
        }
        out
    }

    /// Decodes a whole PNG stream: the signature, then chunks until the input is used up.
    pub fn from_bytes(bytes: &[u8]) -> (r: Result<Png, PngError>)
        ensures
            match parse_png(bytes@) {
                Ok(cs) => r matches Ok(p) && p@ == cs,
                Err(e) => r matches Err(e2) && e2 == e,
            },
            (bytes@.len() < 8 || bytes@.subrange(0, 8) != png_signature()) ==> (r matches Err(e) && e
                == PngError::InvalidSignature),
    {
        let header = Png::standard_header();
        if bytes.len() < 8 {
            return Err(PngError::InvalidSignature);
        }
        let mut k: usize = 0;
        while k < 8
            invariant
                0 <= k <= 8,
                8 <= bytes@.len(),
                header@ == png_signature(),
                forall|j: int| 0 <= j < k ==> bytes@[j] == png_signature()[j],
            decreases 8 - k,
        {
            if bytes[k] != header[k] {
                assert(bytes@.subrange(0, 8)[k as int] != png_signature()[k as int]);
                return Err(PngError::InvalidSignature);
            }
            k += 1;
        }
        assert(bytes@.subrange(0, 8) =~= png_signature());
        let ghost all = bytes@.subrange(8, bytes@.len() as int);
        let mut chunks: Vec<Chunk> = Vec::new();
        let mut pos: usize = 8;
        while pos < bytes.len()
            invariant
                8 <= pos <= bytes@.len(),
                bytes@.subrange(0, 8) == png_signature(),
                all == bytes@.subrange(8, bytes@.len() as int),
                prepend(chunks@.map_values(|c: Chunk| c@), parse_chunks(bytes@.subrange(pos as int, bytes@.len() as int)))
                    == parse_chunks(all),
            decreases bytes@.len() - pos,
        {
            let ghost rest = bytes@.subrange(pos as int, bytes@.len() as int);
            let ghost prefix = chunks@.map_values(|c: Chunk| c@);
            match Chunk::decode_at(bytes, pos) {
                Err(e) => {
                    assert(parse_chunks(rest) == Err::<Seq<ChunkView>, PngError>(e));
                    return Err(e);
                },
                Ok((c, end)) => {
                    proof {
                        assert(rest.subrange(end - pos, rest.len() as int) =~= bytes@.subrange(end as int, bytes@.len() as int));
                        let tail = parse_chunks(bytes@.subrange(end as int, bytes@.len() as int));
                        lemma_parse_chunks_step(rest, c@, end - pos);
                        assert(parse_chunks(rest) == prepend(seq![c@], tail));
                        assert(prefix.push(c@) =~= prefix + seq![c@]);
                        match tail {
                            Ok(s) => {
                                assert(prefix + (seq![c@] + s) =~= prefix.push(c@) + s);
                            },
                            Err(_) => {},
                        }
                    }
                    chunks.push(c);
                    assert(chunks@.map_values(|c: Chunk| c@) =~= prefix.push(c@));
                    pos = end;
                },
            }
        }
        assert(bytes@.subrange(pos as int, bytes@.len() as int) =~= Seq::<u8>::empty());
        assert(chunks@.map_values(|c: Chunk| c@) + Seq::<ChunkView>::empty() =~= chunks@.map_values(|c: Chunk| c@));
        Ok(Png { chunks })
    }
}

impl<'a> TryFrom<&'a [u8]> for Png {
    type Error = PngError;

    fn try_from(bytes: &'a [u8]) -> (r: Result<Png, PngError>)
        ensures
            match parse_png(bytes@) {
                Ok(cs) => r matches Ok(p) && p@ == cs,
                Err(e) => r matches Err(e2) && e2 == e,
            },
            (bytes@.len() < 8 || bytes@.subrange(0, 8) != png_signature()) ==> (r matches Err(e) && e
                == PngError::InvalidSignature),
    {
        Png::from_bytes(bytes)
    }
}

impl<'a> vstd::std_specs::convert::TryFromSpecImpl<&'a [u8]> for Png {
    open spec fn obeys_try_from_spec() -> bool {
        false
    }

    open spec fn try_from_spec(bytes: &'a [u8]) -> Result<Png, PngError> {
        arbitrary()
    }
}

/// The wire forms of the first `i + 1` chunks: those of the first `i`, then chunk `i`'s.
proof fn lemma_chunks_bytes_prefix(cs: Seq<ChunkView>, i: int)
    requires
        0 <= i < cs.len(),
    ensures
        chunks_bytes(cs.subrange(0, i + 1)) == chunks_bytes(cs.subrange(0, i)) + chunk_bytes(cs[i]),
{
    let f = |c: ChunkView| chunk_bytes(c);
    let prev = cs.subrange(0, i);
    let next = cs.subrange(0, i + 1);
    assert(next =~= prev.push(cs[i]));
    assert(next.map_values(f) =~= prev.map_values(f).push(f(cs[i])));
    prev.map_values(f).lemma_flatten_push(f(cs[i]));
}

/// The wire forms of a non-empty list of chunks start with the first chunk's.
proof fn lemma_chunks_bytes_first(cs: Seq<ChunkView>)
    requires
        cs.len() > 0,
    ensures
        chunks_bytes(cs) == chunk_bytes(cs[0]) + chunks_bytes(cs.drop_first()),
{
    let f = |c: ChunkView| chunk_bytes(c);
    assert(cs.map_values(f).drop_first() =~= cs.drop_first().map_values(f));
}

/// One step of decoding a list of chunks: the first chunk, then the rest.
proof fn lemma_parse_chunks_step(b: Seq<u8>, c: ChunkView, n: int)
    requires
        b.len() > 0,
        parse_chunk(b) == Ok::<(ChunkView, int), PngError>((c, n)),
        0 < n <= b.len(),
    ensures
        parse_chunks(b) == prepend(seq![c], parse_chunks(b.subrange(n, b.len() as int))),
{
}

/// Decoding the back-to-back wire forms of well-formed chunks gives back those chunks.
pub proof fn lemma_chunks_round_trip(cs: Seq<ChunkView>)
    requires
        forall|i: int| 0 <= i < cs.len() ==> chunk_wf(#[trigger] cs[i]),
    ensures
        parse_chunks(chunks_bytes(cs)) == Ok::<Seq<ChunkView>, PngError>(cs),
    decreases cs.len(),
{
    let f = |c: ChunkView| chunk_bytes(c);
    if cs.len() == 0 {
        assert(cs.map_values(f) =~= Seq::<Seq<u8>>::empty());
        assert(chunks_bytes(cs) =~= Seq::<u8>::empty());
        assert(cs =~= Seq::<ChunkView>::empty());
    } else {
        let first = cs[0];
        let others = cs.drop_first();
        lemma_chunks_bytes_first(cs);
        assert(chunk_wf(first));
        lemma_chunk_round_trip(first, chunks_bytes(others));
        let b = chunks_bytes(cs);
        let n = chunk_bytes(first).len() as int;
        assert(b.subrange(n, b.len() as int) =~= chunks_bytes(others));
        lemma_parse_chunks_step(b, first, n);
        assert forall|i: int| 0 <= i < others.len() implies chunk_wf(#[trigger] others[i]) by {
            assert(others[i] == cs[i + 1]);
        }
        lemma_chunks_round_trip(others);
        assert(seq![first] + others =~= cs);
    }
}

/// Decoding the wire form of a stream of well-formed chunks gives back those chunks.
pub proof fn lemma_png_round_trip(cs: Seq<ChunkView>)
    requires
        forall|i: int| 0 <= i < cs.len() ==> chunk_wf(#[trigger] cs[i]),
    ensures
        parse_png(png_bytes(cs)) == Ok::<Seq<ChunkView>, PngError>(cs),
{
    let b = png_bytes(cs);
    assert(b.subrange(0, 8) =~= png_signature());
    assert(b.subrange(8, b.len() as int) =~= chunks_bytes(cs));
    lemma_chunks_round_trip(cs);
}

/// After appending a chunk whose type no chunk of the stream has, looking that type up finds
/// the appended chunk; removing it gives back the stream as it was, where the type is not found.
pub proof fn lemma_append_find_remove(cs: Seq<ChunkView>, c: ChunkView)
    requires
        forall|j: int| 0 <= j < cs.len() ==> (#[trigger] cs[j]).chunk_type != c.chunk_type,
    ensures
        find_index(cs.push(c), c.chunk_type) == Some(cs.len() as int),
        cs.push(c)[cs.len() as int] == c,
        cs.push(c).remove(cs.len() as int) == cs,
        find_index(cs, c.chunk_type) is None,
{
    let grown = cs.push(c);
    assert forall|j: int| 0 <= j < cs.len() implies (#[trigger] grown[j]).chunk_type != c.chunk_type by {
        assert(grown[j] == cs[j]);
    }
    assert(is_first_of_type(grown, c.chunk_type, cs.len() as int));
    lemma_first_unique(grown, c.chunk_type, cs.len() as int);
    assert(grown.remove(cs.len() as int) =~= cs);
    lemma_none_of_type(cs, c.chunk_type);
}

} // verus!
