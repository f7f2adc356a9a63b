//! The container: an ordered sequence of records behind the fixed 8-byte
//! file signature, decoded from bytes and re-encoded losslessly.

use crate::chunk::{lemma_parse_chunk_round_trip, lemma_wire_of_parse_chunk, parse_chunk, Chunk, ChunkModel};
use crate::chunk_type::name_matches;
use crate::error::Error;
use crate::wire::{extend_bytes, has_signature, push_signature, spec_signature};
use vstd::prelude::*;

verus! {

/// The models of a sequence of records, in the same order.
pub open spec fn models(chunks: Seq<Chunk>) -> Seq<ChunkModel> {
    Seq::new(chunks.len(), |i: int| chunks[i]@)
}

/// Every record of the sequence is well-formed.
pub open spec fn all_wf(chunks: Seq<ChunkModel>) -> bool {
    forall|i: int| 0 <= i < chunks.len() ==> (#[trigger] chunks[i]).wf()
}

/// The concatenated wire forms of the records, in order.
pub open spec fn chunks_wire(chunks: Seq<ChunkModel>) -> Seq<u8>
    decreases chunks.len(),
{
    if chunks.len() == 0 {
        Seq::empty()
    } else {
        chunks[0].wire() + chunks_wire(chunks.drop_first())
    }
}

/// Decoding records one after another until the bytes run out; the first
/// failure aborts the whole parse, leaving no partial result.
pub open spec fn parse_chunks(bytes: Seq<u8>) -> Result<Seq<ChunkModel>, Error>
    decreases bytes.len(),
{
    if bytes.len() == 0 {
        Ok(Seq::empty())
    } else {
        match parse_chunk(bytes) {
            Err(e) => Err(e),
            Ok(c) => match parse_chunks(bytes.skip(12 + c.data.len() as int)) {
                Err(e) => Err(e),
                Ok(rest) => Ok(seq![c] + rest),
            },
        }
    }
}

/// Decoding a whole file: the fixed signature, then records until the
/// bytes run out.
pub open spec fn parse_png(bytes: Seq<u8>) -> Result<Seq<ChunkModel>, Error> {
    if bytes.len() < 8 {
        Err(Error::PngTooSmall)
    } else if bytes.subrange(0, 8) != spec_signature() {
        Err(Error::InvalidHeader)
    } else {
        parse_chunks(bytes.skip(8))
    }
}

/// The parse of the bytes still to go, appended to the records already
/// parsed; an error wins over everything parsed so far.
pub open spec fn parse_continuation(done: Seq<ChunkModel>, rest_bytes: Seq<u8>) -> Result<
    Seq<ChunkModel>,
    Error,
> {
    match parse_chunks(rest_bytes) {
        Ok(rest) => Ok(done + rest),
        Err(e) => Err(e),
    }
}

/// Consuming one well-parsed record moves it from the bytes still to go to
/// the records already parsed, without changing the overall parse.
proof fn lemma_parse_continuation_step(done: Seq<ChunkModel>, bytes: Seq<u8>, c: ChunkModel)
    requires
        bytes.len() > 0,
        parse_chunk(bytes) == Ok::<ChunkModel, Error>(c),
    ensures
        parse_continuation(done, bytes) == parse_continuation(
            done.push(c),
            bytes.skip(12 + c.data.len() as int),
        ),
{
    let rest_bytes = bytes.skip(12 + c.data.len() as int);
    if parse_chunks(rest_bytes) is Ok {
        let rest = parse_chunks(rest_bytes)->Ok_0;
        assert(parse_chunks(bytes) == Ok::<Seq<ChunkModel>, Error>(seq![c] + rest));
        assert(done + (seq![c] + rest) =~= done.push(c) + rest);
    }
}

/// The index of the first record whose type the string names, or -1 when
/// no record matches.
pub open spec fn find_first(chunks: Seq<ChunkModel>, name: Seq<char>) -> int
    decreases chunks.len(),
{
    if chunks.len() == 0 {
        -1
    } else if name_matches(chunks[0].type_bytes, name) {
        0
    } else {
        let r = find_first(chunks.drop_first(), name);
        if r == -1 {
            -1
        } else {
            r + 1
        }
    }
}

/// What `find_first` reports: -1 exactly when no record matches, and
/// otherwise a matching index that no earlier index undercuts.
pub proof fn lemma_find_first_spec(chunks: Seq<ChunkModel>, name: Seq<char>)
    ensures
        find_first(chunks, name) == -1 ==> forall|j: int|
            0 <= j < chunks.len() ==> !name_matches((#[trigger] chunks[j]).type_bytes, name),
        find_first(chunks, name) != -1 ==> {
            let k = find_first(chunks, name);
            &&& 0 <= k < chunks.len()
            &&& name_matches(chunks[k].type_bytes, name)
            &&& forall|j: int|
                0 <= j < k ==> !name_matches((#[trigger] chunks[j]).type_bytes, name)
        },
    decreases chunks.len(),
{
    if chunks.len() > 0 && !name_matches(chunks[0].type_bytes, name) {
        let rest = chunks.drop_first();
        lemma_find_first_spec(rest, name);
        let r = find_first(rest, name);
        if r == -1 {
            assert forall|j: int| 0 <= j < chunks.len() implies !name_matches(
                (#[trigger] chunks[j]).type_bytes,
                name,
            ) by {
                if j > 0 {
                    assert(rest[j - 1] == chunks[j]);
                }
            }
        } else {
            assert(chunks[r + 1] == rest[r]);
            assert forall|j: int| 0 <= j < r + 1 implies !name_matches(
                (#[trigger] chunks[j]).type_bytes,
                name,
            ) by {
                if j > 0 {
                    assert(rest[j - 1] == chunks[j]);
                }
            }
        }
    }
}

/// `find_first` names `k` when `k` matches and no earlier index does.
pub proof fn lemma_find_first_at(chunks: Seq<ChunkModel>, name: Seq<char>, k: int)
    requires
        0 <= k < chunks.len(),
        name_matches(chunks[k].type_bytes, name),
        forall|j: int| 0 <= j < k ==> !name_matches((#[trigger] chunks[j]).type_bytes, name),
    ensures
        find_first(chunks, name) == k,
    decreases chunks.len(),
{
    if k > 0 {
        lemma_find_first_at(chunks.drop_first(), name, k - 1);
    }
}

/// `find_first` reports -1 when no record matches.
pub proof fn lemma_find_first_none(chunks: Seq<ChunkModel>, name: Seq<char>)
    requires
        forall|j: int| 0 <= j < chunks.len() ==> !name_matches((#[trigger] chunks[j]).type_bytes, name),
    ensures
        find_first(chunks, name) == -1,
    decreases chunks.len(),
{
    if chunks.len() > 0 {
        lemma_find_first_none(chunks.drop_first(), name);
    }
}

/// The container: an ordered sequence of records. Order is significant
/// and is preserved across decoding and re-encoding.
#[derive(Debug)]
pub struct Png {
    chunks: Vec<Chunk>,
}

impl View for Png {
    type V = Seq<ChunkModel>;

    closed spec fn view(&self) -> Seq<ChunkModel> {
        models(self.chunks@)
    }
}

impl Png {
    /// Every record held is well-formed.
    pub open spec fn wf(&self) -> bool {
        all_wf(self@)
    }

    /// A container with no records; its encoding is the bare signature.
    pub fn new() -> (r: Png)
        ensures
            r@ == Seq::<ChunkModel>::empty(),
            r.wf(),
    {
        let p = Png { chunks: Vec::new() };
        proof {
            assert(p@ =~= Seq::<ChunkModel>::empty());
        }
        p
    }

    /// Decodes a container: the signature, then records back to back until
    /// the bytes run out. Succeeds, if and only if every check of
    /// [`parse_png`] passes, with exactly the records that spec names, in
    /// file order; any failure aborts the whole decode.
    pub fn try_from(bytes: &[u8]) -> (r: Result<Png, Error>)
        ensures
            r matches Ok(p) ==> p.wf() && parse_png(bytes@) == Ok::<Seq<ChunkModel>, Error>(p@),
            r matches Err(e) ==> parse_png(bytes@) == Err::<Seq<ChunkModel>, Error>(e),
    {
        if bytes.len() < 8 {
            return Err(Error::PngTooSmall);
        }
        if !has_signature(bytes) {
            return Err(Error::InvalidHeader);
        }
        let mut chunks: Vec<Chunk> = Vec::new();
        let mut offset: usize = 8;
        proof {
            assert(models(chunks@) =~= Seq::<ChunkModel>::empty());
        }
        while offset < bytes.len()
            invariant
                8 <= offset <= bytes@.len(),
                bytes@.subrange(0, 8) == spec_signature(),
                all_wf(models(chunks@)),
                parse_chunks(bytes@.skip(8)) == parse_continuation(
                    models(chunks@),
                    bytes@.skip(offset as int),
                ),
            decreases bytes@.len() - offset,
        {
            let ghost done = models(chunks@);
            let tail = &bytes[offset..bytes.len()];
            proof {
                assert(tail@ =~= bytes@.skip(offset as int));
            }
            match Chunk::try_from(tail) {
                Err(e) => {
                    proof {
                        assert(parse_chunks(tail@) == Err::<Seq<ChunkModel>, Error>(e));
                        assert(parse_png(bytes@) == Err::<Seq<ChunkModel>, Error>(e));
                    }
                    return Err(e);
                },
                Ok(c) => {
                    proof {
                        lemma_parse_continuation_step(done, tail@, c@);
                    }
                    let len = c.length();
                    let advance: usize = 12 + len as usize;
                    chunks.push(c);
                    proof {
                        assert(models(chunks@) =~= done.push(c@));
                        assert(bytes@.skip(offset as int).skip(12 + c@.data.len() as int)
                            =~= bytes@.skip(offset as int + advance as int));
                    }
                    offset = offset + advance;
                },
            }
        }
        proof {
            assert(bytes@.skip(offset as int) =~= Seq::<u8>::empty());
            assert(models(chunks@) + Seq::<ChunkModel>::empty() =~= models(chunks@));
            assert(bytes@.subrange(0, 8) == spec_signature());
        }
        Ok(Png { chunks })
    }

    /// The full wire form: the signature, then every record's wire form in
    /// sequence order. The exact inverse of decoding.
    pub fn as_bytes(&self) -> (r: Vec<u8>)
        requires
            self.wf(),
        ensures
            r@ == spec_signature() + chunks_wire(self@),
    {
        let mut out: Vec<u8> = Vec::new();
        push_signature(&mut out);
        let mut i: usize = 0;
        while i < self.chunks.len()
            invariant
                i <= self.chunks@.len(),
                all_wf(self@),
                self@ == models(self.chunks@),
                out@ == spec_signature() + chunks_wire(self@.take(i as int)),
            decreases self.chunks@.len() - i,
        {
            proof {
                assert(self@[i as int].wf());
            }
            let cb = self.chunks[i].as_bytes();
            extend_bytes(&mut out, cb.as_slice());
            proof {
                lemma_chunks_wire_push(self@.take(i as int), self@[i as int]);
                assert(self@.take(i as int + 1) =~= self@.take(i as int).push(self@[i as int]));
                assert(out@ =~= spec_signature() + chunks_wire(self@.take(i as int + 1)));
            }
            i += 1;
        }
        proof {
            assert(self@.take(self.chunks@.len() as int) =~= self@);
        }
        out
    }

    /// Appends a record at the end of the sequence; always succeeds.
    pub fn append_chunk(&mut self, chunk: Chunk)
        ensures
            final(self)@ == old(self)@.push(chunk@),
    {
        self.chunks.push(chunk);
        proof {
            assert(models(self.chunks@) =~= models(old(self).chunks@).push(chunk@));
        }
    }

    /// The first record whose type `name` names, if any, left in place.
    pub fn chunk_by_type(&self, name: &str) -> (r: Option<&Chunk>)
        requires
            self.wf(),
        ensures
            r is Some <==> find_first(self@, name@) >= 0,
            r matches Some(c) ==> c@ == self@[find_first(self@, name@)],
    {
        let mut i: usize = 0;
        while i < self.chunks.len()
            invariant
                i <= self.chunks@.len(),
                all_wf(self@),
                self@ == models(self.chunks@),
                forall|j: int|
                    0 <= j < i ==> !name_matches((#[trigger] self@[j]).type_bytes, name@),
            decreases self.chunks@.len() - i,
        {
            proof {
                assert(self@[i as int].wf());
            }
            let c = &self.chunks[i];
            if c.chunk_type().matches_name(name) {
                proof {
                    lemma_find_first_at(self@, name@, i as int);
                }
                return Some(c);
            }
            i += 1;
        }
        proof {
            lemma_find_first_none(self@, name@);
        }
        None
    }

    /// Removes and returns the first record whose type `name` names;
    /// records of other types, and later records of the same type, are
    /// untouched. Fails, leaving the container unchanged, exactly when no
    /// record matches.
    pub fn remove_chunk(&mut self, name: &str) -> (r: Result<Chunk, Error>)
        requires
            old(self).wf(),
        ensures
            r is Ok <==> find_first(old(self)@, name@) >= 0,
            r matches Ok(c) ==> {
                let k = find_first(old(self)@, name@);
                c@ == old(self)@[k] && final(self)@ == old(self)@.remove(k)
            },
            r matches Err(e) ==> e == Error::NoChunkOfGivenTypeFound && final(self)@ == old(
                self,
            )@,
    {
        let mut i: usize = 0;
        while i < self.chunks.len()
            invariant
                i <= self.chunks@.len(),
                *self == *old(self),
                all_wf(self@),
                self@ == models(self.chunks@),
                forall|j: int|
                    0 <= j < i ==> !name_matches((#[trigger] self@[j]).type_bytes, name@),
            decreases self.chunks@.len() - i,
        {
            proof {
                assert(self@[i as int].wf());
            }
            let matched = self.chunks[i].chunk_type().matches_name(name);
            if matched {
                proof {
                    lemma_find_first_at(self@, name@, i as int);
                }
                let c = self.chunks.remove(i);
                proof {
                    assert(models(self.chunks@) =~= models(old(self).chunks@).remove(i as int));
                }
                return Ok(c);
            }
            i += 1;
        }
        proof {
            lemma_find_first_none(self@, name@);
        }
        Err(Error::NoChunkOfGivenTypeFound)
    }

    /// All records, read-only, in file order.
    pub fn chunks(&self) -> (r: &[Chunk])
        ensures
            models(r@) == self@,
    {
        self.chunks.as_slice()
    }
}

/// Appending one record's wire form extends the concatenation at the end.
pub proof fn lemma_chunks_wire_push(chunks: Seq<ChunkModel>, c: ChunkModel)
    ensures
        chunks_wire(chunks.push(c)) == chunks_wire(chunks) + c.wire(),
    decreases chunks.len(),
{
    let p = chunks.push(c);
    if chunks.len() == 0 {
        assert(p[0] == c);
        assert(p.drop_first() =~= Seq::<ChunkModel>::empty());
        assert(chunks_wire(p.drop_first()) =~= Seq::<u8>::empty());
        assert(chunks_wire(p) =~= c.wire());
        assert(chunks_wire(chunks) =~= Seq::<u8>::empty());
        assert(chunks_wire(chunks) + c.wire() =~= c.wire());
    } else {
        assert(p[0] == chunks[0]);
        assert(p.drop_first() =~= chunks.drop_first().push(c));
        lemma_chunks_wire_push(chunks.drop_first(), c);
        assert(chunks[0].wire() + (chunks_wire(chunks.drop_first()) + c.wire()) =~= (chunks[0].wire()
            + chunks_wire(chunks.drop_first())) + c.wire());
        assert(chunks_wire(p) == chunks_wire(chunks) + c.wire());
    }
}

/// The concatenated wire forms of well-formed records parse back to
/// exactly those records, in order.
#[verifier::spinoff_prover]
#[verifier::rlimit(100)]
pub proof fn lemma_parse_chunks_round_trip(chunks: Seq<ChunkModel>)
    requires
        all_wf(chunks),
    ensures
        parse_chunks(chunks_wire(chunks)) == Ok::<Seq<ChunkModel>, Error>(chunks),
    decreases chunks.len(),
{
    if chunks.len() == 0 {
        assert(chunks =~= Seq::<ChunkModel>::empty());
    } else {
        let c = chunks[0];
        let rest = chunks.drop_first();
        let rest_wire = chunks_wire(rest);
        lemma_parse_chunk_round_trip(c, rest_wire);
        let bytes = chunks_wire(chunks);
        assert(bytes == c.wire() + rest_wire);
        assert(c.wire().len() == 12 + c.data.len());
        assert(parse_chunk(bytes) == Ok::<ChunkModel, Error>(c));
        assert(bytes.skip(12 + c.data.len() as int) =~= rest_wire);
        lemma_parse_chunks_round_trip(rest);
        assert(parse_chunks(rest_wire) == Ok::<Seq<ChunkModel>, Error>(rest));
        assert(parse_chunks(bytes) == Ok::<Seq<ChunkModel>, Error>(seq![c] + rest));
        assert(seq![c] + rest =~= chunks);
    }
}

/// A byte sequence whose records all decode re-encodes to itself.
#[verifier::spinoff_prover]
#[verifier::rlimit(100)]
pub proof fn lemma_wire_of_parse_chunks(bytes: Seq<u8>)
    requires
        parse_chunks(bytes) is Ok,
    ensures
        chunks_wire(parse_chunks(bytes)->Ok_0) == bytes,
    decreases bytes.len(),
{
    if bytes.len() == 0 {
        assert(chunks_wire(parse_chunks(bytes)->Ok_0) =~= bytes);
    } else {
        let c = parse_chunk(bytes)->Ok_0;
        lemma_wire_of_parse_chunk(bytes);
        let adv = 12 + c.data.len() as int;
        let rest_bytes = bytes.skip(adv);
        lemma_wire_of_parse_chunks(rest_bytes);
        let cs = parse_chunks(bytes)->Ok_0;
        assert(cs == seq![c] + parse_chunks(rest_bytes)->Ok_0);
        assert(cs[0] == c);
        assert(cs.drop_first() =~= parse_chunks(rest_bytes)->Ok_0);
        assert(chunks_wire(cs) == c.wire() + chunks_wire(cs.drop_first()));
        assert(chunks_wire(cs) =~= bytes);
    }
}

/// Encoding what a well-formed file decodes to yields the very same
/// bytes: with `lemma_round_trip`, decode and encode invert each other.
pub proof fn lemma_encode_inverts_decode(bytes: Seq<u8>)
    requires
        parse_png(bytes) is Ok,
    ensures
        spec_signature() + chunks_wire(parse_png(bytes)->Ok_0) == bytes,
{
    lemma_wire_of_parse_chunks(bytes.skip(8));
    assert(spec_signature() + bytes.skip(8) =~= bytes);
}

/// Round trip: a container of well-formed records decodes back from its
/// own encoding — the same records, in the same order, so re-encoding
/// yields the same bytes again.
pub proof fn lemma_round_trip(chunks: Seq<ChunkModel>)
    requires
        all_wf(chunks),
    ensures
        parse_png(spec_signature() + chunks_wire(chunks)) == Ok::<Seq<ChunkModel>, Error>(chunks),
{
    let bytes = spec_signature() + chunks_wire(chunks);
    assert(bytes.subrange(0, 8) =~= spec_signature());
    assert(bytes.skip(8) =~= chunks_wire(chunks));
    lemma_parse_chunks_round_trip(chunks);
}

/// Appending a record of a type no current record has, then removing the
/// first record of that type, returns exactly the appended record and
/// restores the original sequence; a second removal finds nothing.
pub proof fn lemma_append_then_remove(chunks: Seq<ChunkModel>, c: ChunkModel, name: Seq<char>)
    requires
        find_first(chunks, name) == -1,
        name_matches(c.type_bytes, name),
    ensures
        find_first(chunks.push(c), name) == chunks.len(),
        chunks.push(c)[chunks.len() as int] == c,
        chunks.push(c).remove(chunks.len() as int) == chunks,
{
    lemma_find_first_spec(chunks, name);
    lemma_find_first_at(chunks.push(c), name, chunks.len() as int);
    assert(chunks.push(c).remove(chunks.len() as int) =~= chunks);
}

} // verus!
