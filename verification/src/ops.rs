//! Whole-file operations for a frontend to drive: each takes the file's
//! bytes and plain values, and returns the new file bytes or the fetched
//! text. Reading and writing the file itself is the caller's job.

use crate::chunk::{Chunk, ChunkModel};
use crate::chunk_type::{wf_type_bytes, ChunkType};
use crate::error::Error;
use crate::png::{chunks_wire, find_first, lemma_find_first_spec, parse_png, Png};
use crate::wire::{spec_crc32, spec_signature};
use vstd::prelude::*;
use vstd::utf8::{encode_utf8, valid_utf8};

verus! {

/// The record that appending `message` under the type named by `type_str`
/// creates.
pub open spec fn appended_model(type_str: Seq<char>, message: Seq<u8>) -> ChunkModel {
    ChunkModel {
        type_bytes: encode_utf8(type_str),
        data: message,
        crc: spec_crc32(encode_utf8(type_str) + message),
    }
}

/// Decodes the file, appends one record holding `message` under the type
/// named by `type_str`, and returns the re-encoded file. Fails exactly
/// when the file does not decode (with that error) or the type name is not
/// 4 ASCII letters (with `InvalidChunkType`); the decode error wins.
pub fn encode_and_append(file_bytes: &[u8], type_str: &str, message: Vec<u8>) -> (r: Result<
    Vec<u8>,
    Error,
>)
    requires
        message@.len() <= u32::MAX,
    ensures
        r is Ok <==> (parse_png(file_bytes@) is Ok && wf_type_bytes(encode_utf8(type_str@))),
        r matches Ok(out) ==> out@ == spec_signature() + chunks_wire(
            parse_png(file_bytes@)->Ok_0.push(appended_model(type_str@, message@)),
        ),
        r matches Err(e) ==> e == (if parse_png(file_bytes@) is Err {
            parse_png(file_bytes@)->Err_0
        } else {
            Error::InvalidChunkType
        }),
{
    let mut png = match Png::try_from(file_bytes) {
        Ok(p) => p,
        Err(e) => {
            return Err(e);
        },
    };
    let chunk_type = match ChunkType::from_str(type_str) {
        Ok(t) => t,
        Err(e) => {
            return Err(e);
        },
    };
    let chunk = Chunk::new(chunk_type, message);
    let ghost before = png@;
    png.append_chunk(chunk);
    proof {
        assert(png@ =~= before.push(appended_model(type_str@, message@)));
        assert forall|i: int| 0 <= i < png@.len() implies (#[trigger] png@[i]).wf() by {
            if i < before.len() {
                assert(before[i].wf());
            }
        }
    }
    Ok(png.as_bytes())
}

/// Decodes the file and returns the payload of the first record of the
/// type named by `type_str`, read as UTF-8 text. Fails exactly when the
/// file does not decode (with that error), no record matches (with
/// `NoChunkOfGivenTypeFound`), or the payload is not UTF-8 (with
/// `DataNotUTF8`).
pub fn decode_and_fetch(file_bytes: &[u8], type_str: &str) -> (r: Result<String, Error>)
    ensures
        parse_png(file_bytes@) matches Err(e) ==> r == Err::<String, Error>(e),
        parse_png(file_bytes@) matches Ok(cs) ==> {
            let k = find_first(cs, type_str@);
            if k == -1 {
                r == Err::<String, Error>(Error::NoChunkOfGivenTypeFound)
            } else if valid_utf8(cs[k].data) {
                r is Ok && encode_utf8(r->Ok_0@) == cs[k].data
            } else {
                r == Err::<String, Error>(Error::DataNotUTF8)
            }
        },
{
    let png = match Png::try_from(file_bytes) {
        Ok(p) => p,
        Err(e) => {
            return Err(e);
        },
    };
    proof {
        lemma_find_first_spec(png@, type_str@);
    }
    match png.chunk_by_type(type_str) {
        Some(chunk) => chunk.data_as_string(),
        None => Err(Error::NoChunkOfGivenTypeFound),
    }
}

/// Decodes the file, removes the first record of the type named by
/// `type_str`, and returns the re-encoded file. Fails exactly when the
/// file does not decode (with that error) or no record matches (with
/// `NoChunkOfGivenTypeFound`); later records of the type stay.
pub fn decode_and_remove(file_bytes: &[u8], type_str: &str) -> (r: Result<Vec<u8>, Error>)
    ensures
        parse_png(file_bytes@) matches Err(e) ==> r == Err::<Vec<u8>, Error>(e),
        parse_png(file_bytes@) matches Ok(cs) ==> {
            let k = find_first(cs, type_str@);
            if k == -1 {
                r == Err::<Vec<u8>, Error>(Error::NoChunkOfGivenTypeFound)
            } else {
                r matches Ok(out) && out@ == spec_signature() + chunks_wire(cs.remove(k))
            }
        },
{
    let mut png = match Png::try_from(file_bytes) {
        Ok(p) => p,
        Err(e) => {
            return Err(e);
        },
    };
    let ghost before = png@;
    proof {
        lemma_find_first_spec(before, type_str@);
    }
    match png.remove_chunk(type_str) {
        Ok(_) => {
            proof {
                let k = find_first(before, type_str@);
                assert(0 <= k < before.len());
                assert(png@ == before.remove(k));
                assert forall|i: int| 0 <= i < png@.len() implies (#[trigger] png@[i]).wf() by {
                    if i < k {
                        assert(before[i].wf());
                    } else {
                        assert(png@[i] == before[i + 1]);
                        assert(before[i + 1].wf());
                    }
                }
            }
            Ok(png.as_bytes())
        },
        Err(e) => Err(e),
    }
}

} // verus!
