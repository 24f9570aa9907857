use vstd::prelude::*;
use vstd::utf8::*;
use crate::bytes::{be_u32, lemma_be_round_trip, read_be_u32, to_be_bytes, u32_be};
use crate::checksum::{crc32, crc32_of};
use crate::chunk_type::{all_letters, ascii_bytes, parse_type_str, valid_type_bytes, valid_type_str, ChunkType};
use crate::error::PngError;
use crate::text::string_from_utf8;

verus! {

/// What a chunk holds: its type bytes and its data. Its length and checksum follow from these.
pub struct ChunkView {
    pub chunk_type: Seq<u8>,
    pub data: Seq<u8>,
}

/// A chunk that can be written: four letter bytes of type, and data whose length fits in a `u32`.
pub open spec fn chunk_wf(c: ChunkView) -> bool {
    valid_type_bytes(c.chunk_type) && c.data.len() <= u32::MAX
}

/// The checksum of a chunk: CRC-32 over its type bytes followed by its data.
pub open spec fn chunk_crc(c: ChunkView) -> u32 {
    crc32_of(c.chunk_type + c.data)
}

/// The wire form of a chunk: length, type, data and checksum, the integers big-endian.
pub open spec fn chunk_bytes(c: ChunkView) -> Seq<u8> {
    u32_be(c.data.len() as u32) + c.chunk_type + c.data + u32_be(chunk_crc(c))
}

/// The outcome of the checks that follow reading a chunk's fields: the stored checksum must
/// equal the computed one, then the type bytes must be letters.
pub open spec fn fields_verdict(stored: u32, computed: u32, type_bytes: Seq<u8>) -> Result<(), PngError> {
    if stored != computed {
        Err(PngError::CrcMismatch)
    } else if !all_letters(type_bytes) {
        Err(PngError::InvalidChunkTypeBytes)
    } else {
        Ok(())
    }
}

/// Decodes the chunk at the start of `b`: the chunk and the number of bytes it took.
#[verifier::opaque]
pub open spec fn parse_chunk(b: Seq<u8>) -> Result<(ChunkView, int), PngError> {
    if b.len() < 12 {
        Err(PngError::TruncatedInput)
    } else {
        let len = be_u32(b.subrange(0, 4));
        if b.len() < 12 + len {
            Err(PngError::TruncatedInput)
        } else {
            let t = b.subrange(4, 8);
            let data = b.subrange(8, 8 + len);
            let stored = be_u32(b.subrange(8 + len, 12 + len)) as u32;
            match fields_verdict(stored, crc32_of(b.subrange(4, 8 + len)), t) {
                Err(e) => Err(e),
                Ok(_) => Ok((ChunkView { chunk_type: t, data }, 12 + len)),
            }
        }
    }
}

/// One record of a PNG stream: a type, a data payload, and the payload's length and checksum.
#[derive(Debug)]
pub struct Chunk {
    length: u32,
    chunk_type: ChunkType,
    chunk_data: Vec<u8>,
    crc: u32,
}

impl View for Chunk {
    type V = ChunkView;

    closed spec fn view(&self) -> ChunkView {
        ChunkView { chunk_type: self.chunk_type@, data: self.chunk_data@ }
    }
}

/// The checksum over a type followed by data.
pub fn make_crc(chunk_type: &ChunkType, data: &Vec<u8>) -> (r: u32)
    ensures
        r == crc32_of(chunk_type@ + data@),
{
    let type_bytes = chunk_type.bytes();
    let mut all: Vec<u8> = Vec::new();
    let mut i: usize = 0;
    while i < 4
        invariant
            0 <= i <= 4,
            type_bytes@.len() == 4,
            all@ =~= type_bytes@.subrange(0, i as int),
        decreases 4 - i,
    {
        all.push(type_bytes[i]);
        i += 1;
    }
    let mut j: usize = 0;
    while j < data.len()
        invariant
            0 <= j <= data@.len(),
            all@ =~= type_bytes@ + data@.subrange(0, j as int),
        decreases data@.len() - j,
    {
        all.push(data[j]);
        j += 1;
    }
    assert(all@ =~= chunk_type@ + data@);
    crc32(all.as_slice())
}

/// Appends `src` to `dst`.
pub(crate) fn push_all(dst: &mut Vec<u8>, src: &[u8])
    ensures
        final(dst)@ == old(dst)@ + src@,
{
    let mut i: usize = 0;
    while i < src.len()
        invariant
            0 <= i <= src@.len(),
            dst@ =~= old(dst)@ + src@.subrange(0, i as int),
        decreases src@.len() - i,
    {
        dst.push(src[i]);
        i += 1;
    }
    assert(src@.subrange(0, src@.len() as int) =~= src@);
}

impl Chunk {
    #[verifier::type_invariant]
    spec fn inv(&self) -> bool {
        &&& self.chunk_data@.len() <= u32::MAX
        &&& self.length as int == self.chunk_data@.len()
        &&& self.crc == crc32_of(self.chunk_type@ + self.chunk_data@)
    }

    /// A chunk of the given type holding `data`; its length and checksum are computed here.
    pub fn new(chunk_type: ChunkType, data: Vec<u8>) -> (r: Chunk)
        requires
            data@.len() <= u32::MAX,
        ensures
            r@ == (ChunkView { chunk_type: chunk_type@, data: data@ }),
    {
        let len = data.len() as u32;
        let crc = make_crc(&chunk_type, &data);
        Chunk { length: len, chunk_type, chunk_data: data, crc }
    }

    /// Number of data bytes.
    pub fn length(&self) -> (r: u32)
        ensures
            r as int == self@.data.len(),
    {
        proof {
            use_type_invariant(self);
        }
        self.length
    }

    /// The stored checksum.
    pub fn crc(&self) -> (r: u32)
        ensures
            r == chunk_crc(self@),
    {
        proof {
            use_type_invariant(self);
        }
        self.crc
    }

    /// The chunk's type.
    pub fn chunk_type(&self) -> (r: &ChunkType)
        ensures
            r@ == self@.chunk_type,
    {
        &self.chunk_type
    }

    /// The data payload.
    pub fn data(&self) -> (r: &[u8])
        ensures
            r@ == self@.data,
    {
        self.chunk_data.as_slice()
    }

    /// A chunk whose type is spelled by `type_string` and whose data is the UTF-8 text of
    /// `data_string`.
    pub fn chunk_from_strings(type_string: String, data_string: String) -> (r: Result<Chunk, PngError>)
        requires
            encode_utf8(data_string@).len() <= u32::MAX,
        ensures
            r is Ok <==> valid_type_str(type_string@),
            r matches Ok(c) ==> c@ == (ChunkView {
                chunk_type: ascii_bytes(type_string@),
                data: encode_utf8(data_string@),
            }),
            r matches Err(e) ==> parse_type_str(type_string@) == Err::<Seq<u8>, PngError>(e),
    {
        match ChunkType::from_string(type_string.as_str()) {
            Ok(chunk_type) => {
                let text = data_string.as_str().as_bytes();
                let mut data: Vec<u8> = Vec::new();
                push_all(&mut data, text);
                Ok(Chunk::new(chunk_type, data))
            },
            Err(e) => Err(e),
        }
    }

    /// The data read as UTF-8 text.
    pub fn data_as_string(&self) -> (r: Result<String, PngError>)
        ensures
            r is Ok <==> valid_utf8(self@.data),
            r matches Ok(s) ==> s@ == decode_utf8(self@.data),
            r matches Err(e) ==> e == PngError::NotUtf8,
    {
        let mut data: Vec<u8> = Vec::new();
        push_all(&mut data, self.chunk_data.as_slice());
        match string_from_utf8(data) {
            Some(s) => Ok(s),
            None => Err(PngError::NotUtf8),
        }
    }

    /// The wire form: length, type, data and checksum. Decoding it gives this chunk back.
    pub fn as_bytes(&self) -> (r: Vec<u8>)
        ensures
            r@ == chunk_bytes(self@),
            chunk_wf(self@),
            parse_chunk(r@) == Ok::<(ChunkView, int), PngError>((self@, r@.len() as int)),
    {
        proof {
            use_type_invariant(self);
        }
        let mut out: Vec<u8> = Vec::new();
        let length_bytes = to_be_bytes(self.length);
        let type_bytes = self.chunk_type.bytes();
        let crc_bytes = to_be_bytes(self.crc);
        push_all(&mut out, length_bytes.as_slice());
        push_all(&mut out, type_bytes.as_slice());
        push_all(&mut out, self.chunk_data.as_slice());
        push_all(&mut out, crc_bytes.as_slice());
        assert(out@ =~= chunk_bytes(self@));
        proof {
            lemma_chunk_round_trip(self@, Seq::empty());
            assert(chunk_bytes(self@) + Seq::<u8>::empty() =~= chunk_bytes(self@));
        }
        out
    }

    /// Decides, once the fields are read, whether they form a chunk: the stored checksum must
    /// equal the computed one, then the type bytes must be letters.
    pub fn check_fields(stored: u32, computed: u32, type_bytes: [u8; 4]) -> (r: Result<(), PngError>)
        ensures
            r == fields_verdict(stored, computed, type_bytes@),
    {
        if stored != computed {
            return Err(PngError::CrcMismatch);
        }
        match ChunkType::from_bytes(type_bytes) {
            Ok(_) => Ok(()),
            Err(e) => Err(e),
        }
    }

    /// Decodes the chunk that starts at `pos`; on success also gives the position just after it.
    pub fn decode_at(bytes: &[u8], pos: usize) -> (r: Result<(Chunk, usize), PngError>)
        requires
            pos <= bytes@.len(),
        ensures
            match parse_chunk(bytes@.subrange(pos as int, bytes@.len() as int)) {
                Ok((v, n)) => r matches Ok((c, end)) && c@ == v && end == pos + n,
                Err(e) => r matches Err(e2) && e2 == e,
            },
            r matches Ok((_, end)) ==> pos + 12 <= end <= bytes@.len(),
    {
        reveal(parse_chunk);
        let ghost b = bytes@.subrange(pos as int, bytes@.len() as int);
        let avail = bytes.len() - pos;
        if avail < 12 {
            return Err(PngError::TruncatedInput);
        }
        let len = read_be_u32(bytes, pos);
        assert(bytes@.subrange(pos as int, pos + 4) =~= b.subrange(0, 4));
        if avail - 12 < len as usize {
            return Err(PngError::TruncatedInput);
        }
        let data_start = pos + 8;
        let data_end = data_start + len as usize;
        let type_bytes: [u8; 4] = [bytes[pos + 4], bytes[pos + 5], bytes[pos + 6], bytes[pos + 7]];
        assert(type_bytes@ =~= b.subrange(4, 8));
        let stored = read_be_u32(bytes, data_end);
        assert(bytes@.subrange(data_end as int, data_end + 4) =~= b.subrange(8 + len, 12 + len));
        let region = &bytes[pos + 4..data_end];
        assert(region@ =~= b.subrange(4, 8 + len));
        let computed = crc32(region);
        match Chunk::check_fields(stored, computed, type_bytes) {
            Err(e) => {
                return Err(e);
            },
            Ok(_) => {},
        }
        let chunk_type = match ChunkType::from_bytes(type_bytes) {
            Ok(t) => t,
            Err(e) => {
                return Err(e);
            },
        };
        let mut data: Vec<u8> = Vec::new();
        push_all(&mut data, &bytes[data_start..data_end]);
        assert(data@ =~= b.subrange(8, 8 + len));
        assert(chunk_type@ + data@ =~= b.subrange(4, 8 + len));
        let chunk = Chunk { length: len, chunk_type, chunk_data: data, crc: stored };
        Ok((chunk, data_end + 4))
    }

    /// Decodes the chunk at the start of `bytes`; bytes after it are left unread.
    pub fn from_bytes(bytes: &[u8]) -> (r: Result<Chunk, PngError>)
        ensures
            match parse_chunk(bytes@) {
                Ok((v, _)) => r matches Ok(c) && c@ == v,
                Err(e) => r matches Err(e2) && e2 == e,
            },
    {
        assert(bytes@.subrange(0, bytes@.len() as int) =~= bytes@);
        match Chunk::decode_at(bytes, 0) {
            Ok((c, _)) => Ok(c),
            Err(e) => Err(e),
        }
    }
}

impl Clone for Chunk {
    fn clone(&self) -> (r: Chunk)
        ensures
            r@ == self@,
    {
        proof {
            use_type_invariant(self);
        }
        let mut data: Vec<u8> = Vec::new();
        push_all(&mut data, self.chunk_data.as_slice());
        Chunk { length: self.length, chunk_type: self.chunk_type, chunk_data: data, crc: self.crc }
    }
}

impl<'a> TryFrom<&'a [u8]> for Chunk {
    type Error = PngError;

    fn try_from(bytes: &'a [u8]) -> (r: Result<Chunk, PngError>)
        ensures
            match parse_chunk(bytes@) {
                Ok((v, _)) => r matches Ok(c) && c@ == v,
                Err(e) => r matches Err(e2) && e2 == e,
            },
    {
        Chunk::from_bytes(bytes)
    }
}

impl<'a> vstd::std_specs::convert::TryFromSpecImpl<&'a [u8]> for Chunk {
    open spec fn obeys_try_from_spec() -> bool {
        false
    }

    open spec fn try_from_spec(bytes: &'a [u8]) -> Result<Chunk, PngError> {
        arbitrary()
    }
}

/// A chunk read back from its own wire form is the same chunk, and takes all of that form.
pub proof fn lemma_chunk_round_trip(c: ChunkView, rest: Seq<u8>)
    requires
        chunk_wf(c),
    ensures
        parse_chunk(chunk_bytes(c) + rest) == Ok::<(ChunkView, int), PngError>((c, chunk_bytes(c).len() as int)),
        chunk_bytes(c).len() == 12 + c.data.len(),
{
    reveal(parse_chunk);
    let len = c.data.len() as u32;
    let b = chunk_bytes(c) + rest;
    lemma_be_round_trip(len);
    lemma_be_round_trip(chunk_crc(c));
    let n = c.data.len() as int;
    assert(b.subrange(0, 4) =~= u32_be(len));
    assert(b.subrange(4, 8) =~= c.chunk_type);
    assert(b.subrange(8, 8 + n) =~= c.data);
    assert(b.subrange(4, 8 + n) =~= c.chunk_type + c.data);
    assert(b.subrange(8 + n, 12 + n) =~= u32_be(chunk_crc(c)));
}

/// `b` with bit `bit` of byte `k` inverted.
pub open spec fn flip_bit(b: Seq<u8>, k: int, bit: u8) -> Seq<u8> {
    b.update(k, b[k] ^ (1u8 << bit))
}

/// Inverting one bit of the type or data in a chunk's wire form makes decoding report a
/// checksum mismatch, whenever the checksum over the altered type and data differs from the
/// chunk's own.
pub proof fn lemma_bit_flip_detected(c: ChunkView, k: int, bit: u8)
    requires
        chunk_wf(c),
        4 <= k < 8 + c.data.len(),
        bit < 8,
        crc32_of(flip_bit(chunk_bytes(c), k, bit).subrange(4, 8 + c.data.len() as int)) != chunk_crc(c),
    ensures
        parse_chunk(flip_bit(chunk_bytes(c), k, bit)) == Err::<(ChunkView, int), PngError>(PngError::CrcMismatch),
{
    reveal(parse_chunk);
    let b = chunk_bytes(c);
    let f = flip_bit(b, k, bit);
    let n = c.data.len() as int;
    lemma_chunk_round_trip(c, Seq::empty());
    assert(b + Seq::<u8>::empty() =~= b);
    lemma_be_round_trip(c.data.len() as u32);
    lemma_be_round_trip(chunk_crc(c));
    assert(f.subrange(0, 4) =~= b.subrange(0, 4));
    assert(b.subrange(0, 4) =~= u32_be(c.data.len() as u32));
    assert(f.subrange(8 + n, 12 + n) =~= b.subrange(8 + n, 12 + n));
    assert(b.subrange(8 + n, 12 + n) =~= u32_be(chunk_crc(c)));
}

} // verus!
