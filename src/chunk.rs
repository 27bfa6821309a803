use crate::big_endian::{be_bytes, be_value, lemma_be_bytes_of_value, push_be_u32, read_be_u32};
use crate::checksum::{crc32, crc32_iso_hdlc};
use crate::chunk_type::ChunkType;
use crate::error::PngError;
use crate::text::string_from_utf8;
use vstd::prelude::*;
use vstd::utf8::{decode_utf8, valid_utf8};

verus! {

/// What a chunk is: its type code and its payload. Its length and checksum
/// follow from these.
pub struct ChunkView {
    pub chunk_type: Seq<u8>,
    pub data: Seq<u8>,
}

impl ChunkView {
    /// A four-byte type and a payload whose length fits the length field.
    pub open spec fn wf(self) -> bool {
        self.chunk_type.len() == 4 && self.data.len() <= u32::MAX
    }

    /// The checksum of the chunk, over its type followed by its payload.
    pub open spec fn crc(self) -> u32 {
        crc32_iso_hdlc(self.chunk_type + self.data)
    }

    /// The bytes of the chunk on the wire: length, type, payload, checksum.
    pub open spec fn encoded(self) -> Seq<u8> {
        be_bytes(self.data.len() as u32) + self.chunk_type + self.data + be_bytes(self.crc())
    }
}

/// The number of bytes that a chunk with this payload takes on the wire.
pub open spec fn encoded_len(c: ChunkView) -> int {
    12 + c.data.len() as int
}

/// What decoding the chunk at the start of `b` gives: the length field, the
/// type, the payload, then a stored checksum that must match the computed one.
/// Bytes after the checksum are not read.
pub open spec fn decode_chunk(b: Seq<u8>) -> Result<ChunkView, PngError> {
    if b.len() < 8 {
        Err(PngError::TruncatedInput)
    } else {
        let len = be_value(b.subrange(0, 4));
        if b.len() < 8 + len {
            Err(PngError::TruncatedInput)
        } else if b.len() < 12 + len {
            Err(PngError::MissingChecksum)
        } else if crc32_iso_hdlc(b.subrange(4, 8 + len)) != be_value(b.subrange(8 + len, 12 + len)) {
            Err(PngError::ChecksumMismatch)
        } else {
            Ok(ChunkView { chunk_type: b.subrange(4, 8), data: b.subrange(8, 8 + len) })
        }
    }
}

/// Encoding a chunk and decoding the bytes gives the same chunk back: same
/// type, same payload, and so the same length and checksum.
pub proof fn lemma_chunk_round_trip(t: ChunkType, p: Seq<u8>)
    requires
        p.len() <= u32::MAX,
    ensures
        ({
            let c = ChunkView { chunk_type: t.type_code@, data: p };
            decode_chunk(c.encoded()) == Ok::<ChunkView, PngError>(c)
        }),
{
    let c = ChunkView { chunk_type: t.type_code@, data: p };
    let b = c.encoded();
    let n = c.data.len() as u32;
    crate::big_endian::lemma_be_value_of_bytes(n);
    crate::big_endian::lemma_be_value_of_bytes(c.crc());
    let len = n as int;
    assert(b.subrange(0, 4) =~= be_bytes(n));
    assert(b.subrange(4, 8) =~= c.chunk_type);
    assert(b.subrange(8, 8 + len) =~= c.data);
    assert(b.subrange(4, 8 + len) =~= c.chunk_type + c.data);
    assert(b.subrange(8 + len, 12 + len) =~= be_bytes(c.crc()));
}

/// A chunk decoded from the start of `b` encodes back to exactly the bytes it
/// was read from.
pub proof fn lemma_decoded_chunk_encodes_back(b: Seq<u8>, c: ChunkView)
    requires
        decode_chunk(b) == Ok::<ChunkView, PngError>(c),
    ensures
        c.wf(),
        encoded_len(c) <= b.len(),
        c.encoded() == b.subrange(0, encoded_len(c)),
{
    lemma_be_bytes_of_value(b.subrange(0, 4));
    let len = be_value(b.subrange(0, 4));
    lemma_be_bytes_of_value(b.subrange(8 + len, 12 + len));
    assert(c.chunk_type + c.data =~= b.subrange(4, 8 + len));
    assert(c.encoded() =~= b.subrange(0, encoded_len(c)));
}

/// Appends `src` to `out`.
pub(crate) fn append_bytes(out: &mut Vec<u8>, src: &[u8])
    ensures
        final(out)@ == old(out)@ + src@,
{
    let mut i: usize = 0;
    while i < src.len()
        invariant
            i <= src@.len(),
            out@ == old(out)@ + src@.subrange(0, i as int),
        decreases src@.len() - i,
    {
        out.push(src[i]);
        i = i + 1;
        assert(out@ =~= old(out)@ + src@.subrange(0, i as int));
    }
    assert(src@.subrange(0, i as int) =~= src@);
}

/// Copies `bytes[from..to]` into a new vector.
fn copy_range(bytes: &[u8], from: usize, to: usize) -> (r: Vec<u8>)
    requires
        from <= to <= bytes@.len(),
    ensures
        r@ == bytes@.subrange(from as int, to as int),
{
    let mut r: Vec<u8> = Vec::new();
    let mut i: usize = from;
    while i < to
        invariant
            from <= i <= to <= bytes@.len(),
            r@ == bytes@.subrange(from as int, i as int),
        decreases to - i,
    {
        r.push(bytes[i]);
        i = i + 1;
        assert(r@ =~= bytes@.subrange(from as int, i as int));
    }
    r
}

/// One chunk of a PNG file. Its length and checksum are computed when it is
/// built and always agree with its type and payload.
#[derive(Debug)]
pub struct Chunk {
    data_length: u32,
    chunk_type: ChunkType,
    message_bytes: Vec<u8>,
    crc: u32,
}

impl View for Chunk {
    type V = ChunkView;

    closed spec fn view(&self) -> ChunkView {
        ChunkView { chunk_type: self.chunk_type.type_code@, data: self.message_bytes@ }
    }
}

impl Chunk {
    #[verifier::type_invariant]
    spec fn inv(self) -> bool {
        &&& self.data_length as int == self.message_bytes@.len()
        &&& self.crc == crc32_iso_hdlc(self.chunk_type.type_code@ + self.message_bytes@)
    }

    /// Builds a chunk from a type and a payload, computing its checksum.
    pub fn new(chunk_type: ChunkType, data: Vec<u8>) -> (r: Chunk)
        requires
            data@.len() <= u32::MAX,
        ensures
            r@ == (ChunkView { chunk_type: chunk_type.type_code@, data: data@ }),
    {
        let mut covered: Vec<u8> = Vec::new();
        append_bytes(&mut covered, chunk_type.type_code.as_slice());
        append_bytes(&mut covered, data.as_slice());
        let crc = crc32(covered.as_slice());
        Chunk { data_length: data.len() as u32, chunk_type, message_bytes: data, crc }
    }

    /// Builds a chunk whose checksum was read from the wire, given the
    /// checksum computed over its type and payload: it succeeds exactly when
    /// the two agree.
    pub fn with_stored_crc(chunk_type: ChunkType, data: Vec<u8>, stored_crc: u32, computed_crc: u32) -> (r: Result<Chunk, PngError>)
        requires
            data@.len() <= u32::MAX,
            computed_crc == crc32_iso_hdlc(chunk_type.type_code@ + data@),
        ensures
            stored_crc == computed_crc ==> (r matches Ok(c) && c@ == (ChunkView { chunk_type: chunk_type.type_code@, data: data@ })),
            stored_crc != computed_crc ==> r == Err::<Chunk, PngError>(PngError::ChecksumMismatch),
    {
        if stored_crc != computed_crc {
            return Err(PngError::ChecksumMismatch);
        }
        Ok(Chunk { data_length: data.len() as u32, chunk_type, message_bytes: data, crc: stored_crc })
    }

    /// Decodes the chunk that starts at `bytes[start..]`.
    pub(crate) fn decode_at(bytes: &[u8], start: usize) -> (r: Result<Chunk, PngError>)
        requires
            start <= bytes@.len(),
        ensures
            match r {
                Ok(c) => decode_chunk(bytes@.subrange(start as int, bytes@.len() as int)) == Ok::<ChunkView, PngError>(c@),
                Err(e) => decode_chunk(bytes@.subrange(start as int, bytes@.len() as int)) == Err::<ChunkView, PngError>(e),
            },
    {
        let ghost b = bytes@.subrange(start as int, bytes@.len() as int);
        let avail = bytes.len() - start;
        if avail < 8 {
            return Err(PngError::TruncatedInput);
        }
        let len = read_be_u32(bytes, start);
        assert(bytes@.subrange(start as int, start + 4) =~= b.subrange(0, 4));
        if avail - 8 < len as usize {
            return Err(PngError::TruncatedInput);
        }
        let data_end = start + 8 + len as usize;
        if bytes.len() - data_end < 4 {
            return Err(PngError::MissingChecksum);
        }
        let chunk_type = ChunkType {
            type_code: [bytes[start + 4], bytes[start + 5], bytes[start + 6], bytes[start + 7]],
        };
        let data = copy_range(bytes, start + 8, data_end);
        let covered = copy_range(bytes, start + 4, data_end);
        let computed = crc32(covered.as_slice());
        let stored = read_be_u32(bytes, data_end);
        proof {
            assert(chunk_type.type_code@ =~= b.subrange(4, 8));
            assert(data@ =~= b.subrange(8, 8 + len));
            assert(covered@ =~= b.subrange(4, 8 + len));
            assert(covered@ =~= chunk_type.type_code@ + data@);
            assert(bytes@.subrange(data_end as int, data_end + 4) =~= b.subrange(8 + len, 12 + len));
        }
        Chunk::with_stored_crc(chunk_type, data, stored, computed)
    }

    /// Decodes the chunk at the start of `bytes`, checking its checksum.
    pub fn try_from(bytes: &[u8]) -> (r: Result<Chunk, PngError>)
        ensures
            match r {
                Ok(c) => decode_chunk(bytes@) == Ok::<ChunkView, PngError>(c@),
                Err(e) => decode_chunk(bytes@) == Err::<ChunkView, PngError>(e),
            },
    {
        assert(bytes@.subrange(0, bytes@.len() as int) =~= bytes@);
        Chunk::decode_at(bytes, 0)
    }

    /// The number of payload bytes.
    pub fn length(&self) -> (r: u32)
        ensures
            r == self@.data.len(),
    {
        proof { use_type_invariant(self); }
        self.data_length
    }

    /// The type of the chunk.
    pub fn chunk_type(&self) -> (r: &ChunkType)
        ensures
            r.type_code@ == self@.chunk_type,
    {
        &self.chunk_type
    }

    /// The payload.
    pub fn data(&self) -> (r: &[u8])
        ensures
            r@ == self@.data,
    {
        self.message_bytes.as_slice()
    }

    /// The checksum over type and payload.
    pub fn crc(&self) -> (r: u32)
        ensures
            r == self@.crc(),
    {
        proof { use_type_invariant(self); }
        self.crc
    }

    /// The payload read as UTF-8 text.
    pub fn data_as_string(&self) -> (r: Result<String, PngError>)
        ensures
            r is Ok <==> valid_utf8(self@.data),
            r matches Ok(s) ==> s@ == decode_utf8(self@.data),
            r matches Err(e) ==> e == PngError::InvalidUtf8,
    {
        let mut copy: Vec<u8> = Vec::new();
        append_bytes(&mut copy, self.message_bytes.as_slice());
        assert(copy@ =~= self@.data);
        match string_from_utf8(copy) {
            Some(s) => Ok(s),
            None => Err(PngError::InvalidUtf8),
        }
    }

    /// The bytes of the chunk on the wire: length, type, payload, checksum.
    pub fn as_bytes(&self) -> (r: Vec<u8>)
        ensures
            r@ == self@.encoded(),
            self@.wf(),
    {
        proof { use_type_invariant(self); }
        let mut out: Vec<u8> = Vec::new();
        push_be_u32(&mut out, self.data_length);
        append_bytes(&mut out, self.chunk_type.type_code.as_slice());
        append_bytes(&mut out, self.message_bytes.as_slice());
        push_be_u32(&mut out, self.crc);
        assert(out@ =~= self@.encoded());
        out
    }
}

impl<'a> std::convert::TryFrom<&'a [u8]> for Chunk {
    type Error = PngError;

    fn try_from(bytes: &'a [u8]) -> Result<Chunk, PngError> {
        Chunk::try_from(bytes)
    }
}

/// The decode is described by the inherent `Chunk::try_from`; a value of this
/// type holds a vector, which no spec function can build, so the trait gives
/// no spec of its own.
impl<'a> vstd::std_specs::convert::TryFromSpecImpl<&'a [u8]> for Chunk {
    open spec fn obeys_try_from_spec() -> bool {
        false
    }

    open spec fn try_from_spec(bytes: &'a [u8]) -> Result<Chunk, PngError> {
        vstd::pervasive::arbitrary()
    }
}

} // verus!
