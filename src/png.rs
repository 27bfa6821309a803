use crate::chunk::{
    append_bytes, decode_chunk, encoded_len, lemma_decoded_chunk_encodes_back, Chunk, ChunkView,
};
use crate::chunk_type::ChunkType;
use crate::error::PngError;
use vstd::prelude::*;
use vstd::string::StringSliceAdditionalSpecFns;

verus! {

/// The eight bytes that open every PNG file.
pub open spec fn png_signature() -> Seq<u8> {
    seq![137u8, 80u8, 78u8, 71u8, 13u8, 10u8, 26u8, 10u8]
}

/// The chunks that `b` holds, one after another up to its end.
pub open spec fn decode_chunks(b: Seq<u8>) -> Result<Seq<ChunkView>, PngError>
    decreases b.len(),
{
    if b.len() == 0 {
        Ok(Seq::empty())
    } else {
        match decode_chunk(b) {
            Err(e) => Err(e),
            Ok(c) => if encoded_len(c) <= b.len() {
                match decode_chunks(b.subrange(encoded_len(c), b.len() as int)) {
                    Ok(rest) => Ok(seq![c] + rest),
                    Err(e) => Err(e),
                }
            } else {
                // never taken: a chunk that decodes lies within `b`
                Err(PngError::TruncatedInput)
            },
        }
    }
}

/// What decoding a whole file gives: the signature, then chunks to the end.
pub open spec fn decode_png(b: Seq<u8>) -> Result<Seq<ChunkView>, PngError> {
    if b.len() < 8 || b.subrange(0, 8) != png_signature() {
        Err(PngError::BadSignature)
    } else {
        decode_chunks(b.subrange(8, b.len() as int))
    }
}

/// The chunks written one after another.
pub open spec fn encode_chunks(cs: Seq<ChunkView>) -> Seq<u8>
    decreases cs.len(),
{
    if cs.len() == 0 {
        Seq::empty()
    } else {
        cs[0].encoded() + encode_chunks(cs.drop_first())
    }
}

/// The position of the first chunk whose type code is `key`, if any.
pub open spec fn first_match(cs: Seq<ChunkView>, key: Seq<u8>) -> Option<int>
    decreases cs.len(),
{
    if cs.len() == 0 {
        None
    } else if cs[0].chunk_type == key {
        Some(0)
    } else {
        match first_match(cs.drop_first(), key) {
            Some(i) => Some(i + 1),
            None => None,
        }
    }
}

/// The views of a sequence of chunks.
pub open spec fn views(cs: Seq<Chunk>) -> Seq<ChunkView> {
    cs.map_values(|c: Chunk| c@)
}

/// `r` with the chunks `acc` in front of its chunks, errors unchanged.
pub open spec fn prepend(acc: Seq<ChunkView>, r: Result<Seq<ChunkView>, PngError>) -> Result<Seq<ChunkView>, PngError> {
    match r {
        Ok(rest) => Ok(acc + rest),
        Err(e) => Err(e),
    }
}

proof fn lemma_encode_chunks_push(cs: Seq<ChunkView>, c: ChunkView)
    ensures
        encode_chunks(cs.push(c)) == encode_chunks(cs) + c.encoded(),
    decreases cs.len(),
{
    if cs.len() == 0 {
        assert(cs.push(c).drop_first() =~= Seq::<ChunkView>::empty());
        assert(encode_chunks(Seq::<ChunkView>::empty()) =~= Seq::<u8>::empty());
        assert(encode_chunks(cs.push(c)) =~= c.encoded());
    } else {
        assert(cs.push(c).drop_first() =~= cs.drop_first().push(c));
        lemma_encode_chunks_push(cs.drop_first(), c);
        assert(encode_chunks(cs.push(c)) =~= encode_chunks(cs) + c.encoded());
    }
}

/// `first_match` finds the earliest chunk of that type, and nothing when no
/// chunk has it.
proof fn lemma_first_match_exact(cs: Seq<ChunkView>, key: Seq<u8>, i: int)
    requires
        0 <= i <= cs.len(),
        forall|j: int| 0 <= j < i ==> #[trigger] cs[j].chunk_type != key,
        i == cs.len() || cs[i].chunk_type == key,
    ensures
        first_match(cs, key) == (if i == cs.len() { None } else { Some(i) }),
    decreases cs.len(),
{
    if cs.len() == 0 {
    } else if i == 0 {
    } else {
        assert forall|j: int| 0 <= j < i - 1 implies #[trigger] cs.drop_first()[j].chunk_type != key by {
            assert(cs[j + 1].chunk_type != key);
        }
        lemma_first_match_exact(cs.drop_first(), key, i - 1);
    }
}

proof fn lemma_first_match_facts(cs: Seq<ChunkView>, key: Seq<u8>)
    ensures
        match first_match(cs, key) {
            Some(i) => 0 <= i < cs.len() && cs[i].chunk_type == key && forall|j: int|
                0 <= j < i ==> #[trigger] cs[j].chunk_type != key,
            None => forall|j: int| 0 <= j < cs.len() ==> #[trigger] cs[j].chunk_type != key,
        },
    decreases cs.len(),
{
    if cs.len() > 0 {
        lemma_first_match_facts(cs.drop_first(), key);
        if cs[0].chunk_type != key {
            match first_match(cs.drop_first(), key) {
                Some(i) => {
                    assert forall|j: int| 0 <= j < i + 1 implies #[trigger] cs[j].chunk_type != key by {
                        if j > 0 {
                            assert(cs[j] == cs.drop_first()[j - 1]);
                        }
                    }
                },
                None => {
                    assert forall|j: int| 0 <= j < cs.len() implies #[trigger] cs[j].chunk_type != key by {
                        if j > 0 {
                            assert(cs[j] == cs.drop_first()[j - 1]);
                        }
                    }
                },
            }
        }
    }
}

/// Decoding any buffer that decodes encodes back to exactly that buffer.
pub proof fn lemma_png_round_trip(b: Seq<u8>)
    requires
        decode_png(b) is Ok,
    ensures
        png_signature() + encode_chunks(decode_png(b)->Ok_0) == b,
{
    let body = b.subrange(8, b.len() as int);
    assert(decode_png(b) == decode_chunks(body));
    lemma_chunks_round_trip(body);
    assert(b =~= png_signature() + body);
}

/// A run of chunks that decodes encodes back to exactly the same bytes.
pub proof fn lemma_chunks_round_trip(b: Seq<u8>)
    requires
        decode_chunks(b) is Ok,
    ensures
        encode_chunks(decode_chunks(b)->Ok_0) == b,
    decreases b.len(),
{
    if b.len() > 0 {
        let c = decode_chunk(b)->Ok_0;
        let n = encoded_len(c);
        let tail = b.subrange(n, b.len() as int);
        lemma_decoded_chunk_encodes_back(b, c);
        lemma_chunks_round_trip(tail);
        let cs = decode_chunks(b)->Ok_0;
        assert(cs.drop_first() =~= decode_chunks(tail)->Ok_0);
        assert(b =~= b.subrange(0, n) + tail);
    } else {
        assert(encode_chunks(Seq::<ChunkView>::empty()) =~= b);
    }
}

/// A buffer that does not open with the signature is refused as such,
/// whatever follows it.
pub proof fn lemma_bad_signature(b: Seq<u8>)
    requires
        b.len() < 8 || b.subrange(0, 8) != png_signature(),
    ensures
        decode_png(b) == Err::<Seq<ChunkView>, PngError>(PngError::BadSignature),
{
}

/// After appending a chunk of a type that no earlier chunk has, a lookup of
/// that type finds the appended chunk.
pub proof fn lemma_append_then_find(cs: Seq<ChunkView>, c: ChunkView)
    requires
        first_match(cs, c.chunk_type) is None,
    ensures
        first_match(cs.push(c), c.chunk_type) == Some(cs.len() as int),
{
    lemma_first_match_facts(cs, c.chunk_type);
    lemma_first_match_exact(cs.push(c), c.chunk_type, cs.len() as int);
}

/// After removing the first chunk of a type, a lookup of that type finds the
/// next chunk of it that followed the removed one, or nothing if none did.
pub proof fn lemma_remove_then_find(cs: Seq<ChunkView>, key: Seq<u8>)
    requires
        first_match(cs, key) is Some,
    ensures
        ({
            let i = first_match(cs, key)->Some_0;
            first_match(cs.remove(i), key) == match first_match(cs.subrange(i + 1, cs.len() as int), key) {
                Some(k) => Some(i + k),
                None => None,
            }
        }),
{
    lemma_first_match_facts(cs, key);
    let i = first_match(cs, key)->Some_0;
    let rest = cs.subrange(i + 1, cs.len() as int);
    let r = cs.remove(i);
    lemma_first_match_facts(rest, key);
    match first_match(rest, key) {
        Some(k) => {
            assert forall|j: int| 0 <= j < i + k implies #[trigger] r[j].chunk_type != key by {
                if j >= i {
                    assert(r[j] == rest[j - i]);
                }
            }
            assert(r[i + k] == rest[k]);
            lemma_first_match_exact(r, key, i + k);
        },
        None => {
            assert forall|j: int| 0 <= j < r.len() implies #[trigger] r[j].chunk_type != key by {
                if j >= i {
                    assert(r[j] == rest[j - i]);
                }
            }
            lemma_first_match_exact(r, key, r.len() as int);
        },
    }
}

/// A PNG file: the fixed signature, then an ordered list of chunks.
#[derive(Debug)]
pub struct Png {
    chunks: Vec<Chunk>,
}

impl View for Png {
    type V = Seq<ChunkView>;

    closed spec fn view(&self) -> Seq<ChunkView> {
        views(self.chunks@)
    }
}

fn type_is(t: &ChunkType, key: &[u8]) -> (r: bool)
    ensures
        r == (t.type_code@ == key@),
{
    if key.len() != 4 {
        return false;
    }
    let r = t.type_code[0] == key[0] && t.type_code[1] == key[1] && t.type_code[2] == key[2]
        && t.type_code[3] == key[3];
    if r {
        assert(t.type_code@ =~= key@);
    }
    r
}

fn has_signature(bytes: &[u8]) -> (r: bool)
    ensures
        r == (bytes@.len() >= 8 && bytes@.subrange(0, 8) == png_signature()),
{
    if bytes.len() < 8 {
        return false;
    }
    let r = bytes[0] == 137 && bytes[1] == 80 && bytes[2] == 78 && bytes[3] == 71 && bytes[4]
        == 13 && bytes[5] == 10 && bytes[6] == 26 && bytes[7] == 10;
    proof {
        if r {
            assert(bytes@.subrange(0, 8) =~= png_signature());
        } else {
            let k: int = choose|k: int| 0 <= k < 8 && bytes@[k] != png_signature()[k];
            assert(bytes@.subrange(0, 8)[k] != png_signature()[k]);
        }
    }
    r
}

impl Png {
    /// A file made of the given chunks, in order.
    pub fn from_chunks(chunks: Vec<Chunk>) -> (r: Png)
        ensures
            r@ == views(chunks@),
    {
        Png { chunks }
    }

    /// Decodes a whole file: the signature, then chunks up to the end. The
    /// first chunk that fails to decode makes the whole decode fail.
    pub fn try_from(bytes: &[u8]) -> (r: Result<Png, PngError>)
        ensures
            match r {
                Ok(p) => decode_png(bytes@) == Ok::<Seq<ChunkView>, PngError>(p@),
                Err(e) => decode_png(bytes@) == Err::<Seq<ChunkView>, PngError>(e),
            },
    {
        if !has_signature(bytes) {
            return Err(PngError::BadSignature);
        }
        let ghost b = bytes@;
        let mut chunks: Vec<Chunk> = Vec::new();
        let mut pos: usize = 8;
        assert(b.subrange(8, b.len() as int) =~= b.subrange(pos as int, b.len() as int));
        while pos < bytes.len()
            invariant
                8 <= pos <= b.len(),
                b == bytes@,
                decode_png(b) == prepend(views(chunks@), decode_chunks(b.subrange(pos as int, b.len() as int))),
            decreases b.len() - pos,
        {
            let ghost tail = b.subrange(pos as int, b.len() as int);
            match Chunk::decode_at(bytes, pos) {
                Err(e) => {
                    return Err(e);
                },
                Ok(c) => {
                    let n = 12 + c.length() as usize;
                    proof {
                        assert(tail.subrange(encoded_len(c@), tail.len() as int) =~= b.subrange(pos + n, b.len() as int));
                        assert(views(chunks@) + (seq![c@] + (decode_chunks(b.subrange(pos + n, b.len() as int))->Ok_0)) =~= views(chunks@.push(c)) + (decode_chunks(b.subrange(pos + n, b.len() as int))->Ok_0));
                    }
                    chunks.push(c);
                    pos = pos + n;
                },
            }
        }
        assert(prepend(views(chunks@), decode_chunks(b.subrange(pos as int, b.len() as int))) == Ok::<Seq<ChunkView>, PngError>(views(chunks@) + Seq::empty()));
        assert(views(chunks@) + Seq::empty() =~= views(chunks@));
        Ok(Png { chunks })
    }

    /// The signature that opens the file.
    pub fn header(&self) -> (r: [u8; 8])
        ensures
            r@ == png_signature(),
    {
        let r = [137u8, 80u8, 78u8, 71u8, 13u8, 10u8, 26u8, 10u8];
        assert(r@ =~= png_signature());
        r
    }

    /// The chunks, in file order.
    pub fn chunks(&self) -> (r: &[Chunk])
        ensures
            views(r@) == self@,
    {
        self.chunks.as_slice()
    }

    fn find_first(&self, key: &[u8]) -> (r: Option<usize>)
        ensures
            match first_match(self@, key@) {
                Some(i) => (r matches Some(k) && k as int == i),
                None => r is None,
            },
            r matches Some(k) ==> k < self.chunks@.len(),
    {
        proof { lemma_first_match_facts(self@, key@); }
        let mut i: usize = 0;
        while i < self.chunks.len()
            invariant
                i <= self@.len(),
                self@.len() == self.chunks@.len(),
                forall|j: int| 0 <= j < i ==> #[trigger] self@[j].chunk_type != key@,
            decreases self.chunks@.len() - i,
        {
            if type_is(self.chunks[i].chunk_type(), key) {
                proof { lemma_first_match_exact(self@, key@, i as int); }
                return Some(i);
            }
            i = i + 1;
        }
        proof { lemma_first_match_exact(self@, key@, i as int); }
        None
    }

    /// The first chunk, in file order, whose type reads as `chunk_type`.
    /// Later chunks of the same type are not looked at.
    pub fn chunk_by_type(&self, chunk_type: &str) -> (r: Option<&Chunk>)
        ensures
            match first_match(self@, chunk_type.spec_bytes()) {
                Some(i) => (r matches Some(c) && c@ == self@[i]),
                None => r is None,
            },
    {
        proof { lemma_first_match_facts(self@, chunk_type.spec_bytes()); }
        let key = chunk_type.as_bytes();
        match self.find_first(key) {
            Some(i) => {
                let c = &self.chunks[i];
                assert(c@ == self@[i as int]);
                Some(c)
            },
            None => None,
        }
    }

    /// Adds a chunk at the end.
    pub fn append_chunk(&mut self, chunk: Chunk)
        ensures
            final(self)@ == old(self)@.push(chunk@),
    {
        self.chunks.push(chunk);
        assert(views(self.chunks@) =~= views(old(self).chunks@).push(chunk@));
    }

    /// Removes and returns the first chunk whose type reads as `chunk_type`;
    /// the chunks after it move up by one. Fails when there is none.
    pub fn remove_first_chunk(&mut self, chunk_type: &str) -> (r: Result<Chunk, PngError>)
        ensures
            match first_match(old(self)@, chunk_type.spec_bytes()) {
                Some(i) => (r matches Ok(c) && c@ == old(self)@[i] && final(self)@ == old(self)@.remove(i)),
                None => r == Err::<Chunk, PngError>(PngError::NotFound) && final(self)@ == old(self)@,
            },
    {
        proof { lemma_first_match_facts(self@, chunk_type.spec_bytes()); }
        match self.find_first(chunk_type.as_bytes()) {
            Some(i) => {
                let c = self.chunks.remove(i);
                assert(views(self.chunks@) =~= views(old(self).chunks@).remove(i as int));
                Ok(c)
            },
            None => Err(PngError::NotFound),
        }
    }

    /// The bytes of the file: the signature, then each chunk in order.
    pub fn as_bytes(&self) -> (r: Vec<u8>)
        ensures
            r@ == png_signature() + encode_chunks(self@),
    {
        let sig = self.header();
        let mut out: Vec<u8> = Vec::new();
        append_bytes(&mut out, sig.as_slice());
        let mut i: usize = 0;
        while i < self.chunks.len()
            invariant
                i <= self@.len(),
                self@.len() == self.chunks@.len(),
                out@ == png_signature() + encode_chunks(self@.take(i as int)),
            decreases self.chunks@.len() - i,
        {
            let bytes = self.chunks[i].as_bytes();
            append_bytes(&mut out, bytes.as_slice());
            proof {
                lemma_encode_chunks_push(self@.take(i as int), self@[i as int]);
                assert(self@.take(i + 1) =~= self@.take(i as int).push(self@[i as int]));
            }
            i = i + 1;
        }
        assert(self@.take(i as int) =~= self@);
        out
    }
}

impl<'a> std::convert::TryFrom<&'a [u8]> for Png {
    type Error = PngError;

    fn try_from(bytes: &'a [u8]) -> Result<Png, PngError> {
        Png::try_from(bytes)
    }
}

/// The decode is described by the inherent `Png::try_from`; a value of this
/// type holds a vector, which no spec function can build, so the trait gives
/// no spec of its own.
impl<'a> vstd::std_specs::convert::TryFromSpecImpl<&'a [u8]> for Png {
    open spec fn obeys_try_from_spec() -> bool {
        false
    }

    open spec fn try_from_spec(bytes: &'a [u8]) -> Result<Png, PngError> {
        vstd::pervasive::arbitrary()
    }
}

} // verus!
