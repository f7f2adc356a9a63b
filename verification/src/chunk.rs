//! One record ("chunk") of the container: a chunk type, a byte payload,
//! and the CRC-32 checksum computed over both.

use crate::chunk_type::{wf_type_bytes, ChunkType};
use crate::error::Error;
use crate::wire::{
    copy_range, crc32_checksum, extend_bytes, lemma_u32_be_bytes_inverse,
    lemma_u32_be_bytes_round_trip, push_u32_be,
    read_u32_be, spec_crc32, spec_u32_from_be_bytes, spec_u32_to_be_bytes, utf8_to_string,
};
use vstd::prelude::*;
use vstd::utf8::{decode_utf8, encode_utf8, valid_utf8};

verus! {

/// The mathematical content of a record: its type bytes, its payload and
/// its stored checksum.
#[verifier::ext_equal]
pub ghost struct ChunkModel {
    pub type_bytes: Seq<u8>,
    pub data: Seq<u8>,
    pub crc: u32,
}

impl ChunkModel {
    /// Well-formed: the type bytes are four ASCII letters, the payload
    /// length fits the 4-byte length field, and the stored checksum is the
    /// CRC-32 of type followed by payload.
    pub open spec fn wf(self) -> bool {
        &&& wf_type_bytes(self.type_bytes)
        &&& self.data.len() <= u32::MAX
        &&& self.crc == spec_crc32(self.type_bytes + self.data)
    }

    /// The wire form: big-endian payload length, the 4 type bytes, the
    /// payload, and the big-endian stored checksum.
    pub open spec fn wire(self) -> Seq<u8> {
        spec_u32_to_be_bytes(self.data.len() as u32) + self.type_bytes + self.data
            + spec_u32_to_be_bytes(self.crc)
    }
}

/// Decoding one record from the front of `bytes`, with every check it
/// involves; bytes past the record's end are left for the caller.
pub open spec fn parse_chunk(bytes: Seq<u8>) -> Result<ChunkModel, Error> {
    if bytes.len() < 12 {
        Err(Error::ChunkTooSmall)
    } else {
        let length = spec_u32_from_be_bytes(bytes.subrange(0, 4));
        if !wf_type_bytes(bytes.subrange(4, 8)) {
            Err(Error::InvalidChunkType)
        } else if bytes.len() < length + 12 {
            Err(
                Error::InvalidChunkSize {
                    bytes_recv: bytes.len() as usize,
                    length_field: length,
                },
            )
        } else {
            let data = bytes.subrange(8, 8 + length as int);
            let crc = spec_u32_from_be_bytes(
                bytes.subrange(8 + length as int, 12 + length as int),
            );
            if crc != spec_crc32(bytes.subrange(4, 8 + length as int)) {
                Err(Error::InvalidCRC)
            } else {
                Ok(ChunkModel { type_bytes: bytes.subrange(4, 8), data, crc })
            }
        }
    }
}

/// One length-prefixed, typed, checksummed record.
#[derive(Debug)]
pub struct Chunk {
    chunk_type: ChunkType,
    data: Vec<u8>,
    crc: u32,
}

impl View for Chunk {
    type V = ChunkModel;

    closed spec fn view(&self) -> ChunkModel {
        ChunkModel { type_bytes: self.chunk_type@, data: self.data@, crc: self.crc }
    }
}

impl Chunk {
    /// The record's model is well-formed.
    pub open spec fn wf(&self) -> bool {
        self@.wf()
    }

    /// Builds a record from an already validated type and an arbitrary
    /// payload, computing the checksum over type followed by payload.
    pub fn new(chunk_type: ChunkType, data: Vec<u8>) -> (r: Chunk)
        requires
            chunk_type.wf(),
            data@.len() <= u32::MAX,
        ensures
            r.wf(),
            r@.type_bytes == chunk_type@,
            r@.data == data@,
            r@.crc == spec_crc32(chunk_type@ + data@),
    {
        let mut buf: Vec<u8> = Vec::new();
        let tb = chunk_type.bytes();
        buf.push(tb[0]);
        buf.push(tb[1]);
        buf.push(tb[2]);
        buf.push(tb[3]);
        extend_bytes(&mut buf, data.as_slice());
        proof {
            assert(buf@ =~= chunk_type@ + data@);
        }
        let crc = crc32_checksum(buf.as_slice());
        Chunk { chunk_type, data, crc }
    }

    /// The payload length: the value the 4-byte length field stores.
    pub fn length(&self) -> (r: u32)
        requires
            self.wf(),
        ensures
            r == self@.data.len(),
    {
        self.data.len() as u32
    }

    /// The record's chunk type.
    pub fn chunk_type(&self) -> (r: &ChunkType)
        ensures
            r@ == self@.type_bytes,
    {
        &self.chunk_type
    }

    /// The payload bytes, read-only.
    pub fn data(&self) -> (r: &[u8])
        ensures
            r@ == self@.data,
    {
        self.data.as_slice()
    }

    /// The stored checksum.
    pub fn crc(&self) -> (r: u32)
        ensures
            r == self@.crc,
    {
        self.crc
    }

    /// The payload read as UTF-8 text; fails exactly when the payload is
    /// not a valid UTF-8 encoding.
    pub fn data_as_string(&self) -> (r: Result<String, Error>)
        ensures
            r is Ok <==> valid_utf8(self@.data),
            r matches Ok(s) ==> encode_utf8(s@) == self@.data && s@ == decode_utf8(self@.data),
            r matches Err(e) ==> e == Error::DataNotUTF8,
    {
        match utf8_to_string(self.data.as_slice()) {
            Some(s) => Ok(s),
            None => Err(Error::DataNotUTF8),
        }
    }

    /// The record's wire form, the exact inverse of decoding.
    pub fn as_bytes(&self) -> (r: Vec<u8>)
        requires
            self.wf(),
        ensures
            r@ == self@.wire(),
    {
        let mut out: Vec<u8> = Vec::new();
        push_u32_be(&mut out, self.length());
        let tb = self.chunk_type.bytes();
        out.push(tb[0]);
        out.push(tb[1]);
        out.push(tb[2]);
        out.push(tb[3]);
        extend_bytes(&mut out, self.data.as_slice());
        push_u32_be(&mut out, self.crc);
        proof {
            assert(out@ =~= self@.wire());
        }
        out
    }

    /// Decodes one record from the front of `bytes`; trailing bytes are
    /// not consumed. Succeeds, if and only if every check of
    /// [`parse_chunk`] passes, with exactly the record that spec names.
    pub fn try_from(bytes: &[u8]) -> (r: Result<Chunk, Error>)
        ensures
            r matches Ok(c) ==> c.wf() && parse_chunk(bytes@) == Ok::<ChunkModel, Error>(c@),
            r matches Err(e) ==> parse_chunk(bytes@) == Err::<ChunkModel, Error>(e),
    {
        if bytes.len() < 12 {
            return Err(Error::ChunkTooSmall);
        }
        let length = read_u32_be(bytes, 0);
        let t = [bytes[4], bytes[5], bytes[6], bytes[7]];
        proof {
            assert(t@ =~= bytes@.subrange(4, 8));
        }
        let chunk_type = match ChunkType::try_from(t) {
            Ok(ct) => ct,
            Err(e) => {
                return Err(e);
            },
        };
        if (bytes.len() as u64) < (length as u64) + 12 {
            return Err(
                Error::InvalidChunkSize { bytes_recv: bytes.len(), length_field: length },
            );
        }
        let data_end: usize = 8 + length as usize;
        let data = copy_range(bytes, 8, data_end);
        let crc = read_u32_be(bytes, data_end);
        let typed = copy_range(bytes, 4, data_end);
        let computed = crc32_checksum(typed.as_slice());
        if crc != computed {
            return Err(Error::InvalidCRC);
        }
        proof {
            assert(bytes@.subrange(4, 8 + length as int) =~= bytes@.subrange(4, 8)
                + bytes@.subrange(8, 8 + length as int));
        }
        Ok(Chunk { chunk_type, data, crc })
    }
}

/// Decoding the wire form of a well-formed record gives that record back,
/// whatever bytes follow it: every check of [`parse_chunk`] passes.
pub proof fn lemma_parse_chunk_round_trip(c: ChunkModel, rest: Seq<u8>)
    requires
        c.wf(),
    ensures
        parse_chunk(c.wire() + rest) == Ok::<ChunkModel, Error>(c),
{
    let bytes = c.wire() + rest;
    lemma_u32_be_bytes_round_trip(c.data.len() as u32);
    lemma_u32_be_bytes_round_trip(c.crc);
    assert(bytes.subrange(0, 4) =~= spec_u32_to_be_bytes(c.data.len() as u32));
    assert(bytes.subrange(4, 8) =~= c.type_bytes);
    let length = spec_u32_from_be_bytes(bytes.subrange(0, 4));
    assert(length == c.data.len());
    assert(bytes.subrange(8, 8 + length as int) =~= c.data);
    assert(bytes.subrange(8 + length as int, 12 + length as int) =~= spec_u32_to_be_bytes(c.crc));
    assert(bytes.subrange(4, 8 + length as int) =~= c.type_bytes + c.data);
    assert(parse_chunk(bytes) matches Ok(m) && m =~= c);
}

/// A record that decodes re-encodes to exactly the bytes it consumed: its
/// wire form is the input's prefix of length 12 + payload length.
pub proof fn lemma_wire_of_parse_chunk(bytes: Seq<u8>)
    requires
        parse_chunk(bytes) is Ok,
    ensures
        ({
            let c = parse_chunk(bytes)->Ok_0;
            c.wire() == bytes.subrange(0, 12 + c.data.len() as int)
        }),
{
    let c = parse_chunk(bytes)->Ok_0;
    let length = spec_u32_from_be_bytes(bytes.subrange(0, 4));
    lemma_u32_be_bytes_inverse(bytes.subrange(0, 4));
    lemma_u32_be_bytes_inverse(bytes.subrange(8 + length as int, 12 + length as int));
    assert(c.data.len() == length);
    assert(c.wire() =~= bytes.subrange(0, 12 + length as int));
}

/// A record whose stored checksum field holds any value other than the
/// CRC-32 of its type and payload is rejected with `InvalidCRC`.
pub proof fn lemma_wrong_crc_rejected(m: ChunkModel, rest: Seq<u8>)
    requires
        wf_type_bytes(m.type_bytes),
        m.data.len() <= u32::MAX,
        m.crc != spec_crc32(m.type_bytes + m.data),
    ensures
        parse_chunk(m.wire() + rest) == Err::<ChunkModel, Error>(Error::InvalidCRC),
{
    let bytes = m.wire() + rest;
    lemma_u32_be_bytes_round_trip(m.data.len() as u32);
    lemma_u32_be_bytes_round_trip(m.crc);
    assert(bytes.subrange(0, 4) =~= spec_u32_to_be_bytes(m.data.len() as u32));
    assert(bytes.subrange(4, 8) =~= m.type_bytes);
    let length = spec_u32_from_be_bytes(bytes.subrange(0, 4));
    assert(length == m.data.len());
    assert(bytes.subrange(8 + length as int, 12 + length as int) =~= spec_u32_to_be_bytes(m.crc));
    assert(bytes.subrange(4, 8 + length as int) =~= m.type_bytes + m.data);
}

} // verus!
