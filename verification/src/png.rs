//! PNG: the signature, the chunk walk with its CRC check, and the removal and
//! insertion of the `zTXt` chunk that carries a raw EXIF profile.

use crate::bytes::{
    be_bytes, push_range, push_u32_be, read_u32_be, spec_insert_bytes, spec_u32_be,
};
use crate::checksum::{crc32, spec_crc32};
use crate::chunk::{prepend, ChunkDescriptor, FourCC};
use crate::compress::{deflate_zlib, spec_deflate_zlib};
use crate::error::Error;
use crate::png_proofs::{
    lemma_clear_keeps_stream, lemma_walk_moved, lemma_walk_span, lemma_walk_unfold,
};
use vstd::prelude::*;

verus! {

/// The eight bytes every PNG file starts with.
pub const PNG_SIGNATURE: [u8; 8] = [0x89, 0x50, 0x4e, 0x47, 0x0d, 0x0a, 0x1a, 0x0a];

/// `Raw profile type exif`, its terminating NUL and the compression method 0:
/// the start of the payload of a `zTXt` chunk that holds EXIF data.
pub const RAW_PROFILE_TYPE_EXIF: [u8; 23] = [
    0x52, 0x61, 0x77, 0x20,
    0x70, 0x72, 0x6f, 0x66, 0x69, 0x6c, 0x65, 0x20,
    0x74, 0x79, 0x70, 0x65, 0x20,
    0x65, 0x78, 0x69, 0x66, 0x00, 0x00,
];

/// The tag of the chunk that ends a PNG stream.
pub const IEND: [u8; 4] = [0x49, 0x45, 0x4e, 0x44];

/// The tag of the compressed text chunk that carries the EXIF profile.
pub const ZTXT: [u8; 4] = [0x7a, 0x54, 0x58, 0x74];

/// Whether `data` starts with the PNG signature.
pub open spec fn has_png_signature(data: Seq<u8>) -> bool {
    data.len() >= 8 && data.subrange(0, 8) == PNG_SIGNATURE@
}

/// The chunk that starts at `pos`, or why there is none: the file ends before
/// the chunk does, or the stored CRC is not that of tag and payload.
pub open spec fn spec_chunk_at(data: Seq<u8>, pos: int) -> Result<ChunkDescriptor, Error> {
    if pos < 0 || data.len() - pos < 8 {
        Err(Error::TruncatedData)
    } else {
        let length = spec_u32_be(data, pos);
        if data.len() - pos - 8 < length + 4 {
            Err(Error::TruncatedData)
        } else if spec_u32_be(data, pos + 8 + length) != spec_crc32(
            data.subrange(pos + 4, pos + 8 + length),
        ) {
            Err(Error::ChecksumError)
        } else {
            Ok(ChunkDescriptor { name: FourCC::spec_at(data, pos + 4), length: length as u32 })
        }
    }
}

/// A chunk that can be read lies inside the file, and its recorded length is
/// the one stored in front of it.
pub proof fn lemma_chunk_at_ok(data: Seq<u8>, pos: int)
    requires
        spec_chunk_at(data, pos) is Ok,
    ensures
        0 <= pos,
        spec_chunk_at(data, pos).unwrap().length == spec_u32_be(data, pos),
        spec_chunk_at(data, pos).unwrap().name == FourCC::spec_at(data, pos + 4),
        pos + 12 + spec_chunk_at(data, pos).unwrap().length <= data.len(),
{
}

/// The chunks from `pos` up to and including the first `IEND`, or the error
/// of the first chunk that cannot be read.
pub open spec fn spec_walk(data: Seq<u8>, pos: int) -> Result<Seq<ChunkDescriptor>, Error>
    decreases data.len() - pos,
{
    match spec_chunk_at(data, pos) {
        Err(e) => Err(e),
        Ok(chunk) => if chunk.name == FourCC::new(IEND) {
            Ok(seq![chunk])
        } else {
            prepend(seq![chunk], spec_walk(data, pos + 12 + chunk.length))
        },
    }
}

/// The chunk stream of a PNG file.
pub open spec fn spec_parse_png(data: Seq<u8>) -> Result<Seq<ChunkDescriptor>, Error> {
    if has_png_signature(data) {
        spec_walk(data, 8)
    } else {
        Err(Error::InvalidSignature)
    }
}

/// The bytes that a chunk stream takes up: twelve for each chunk's length,
/// tag and CRC, and its payload.
pub open spec fn spec_stream_len(chunks: Seq<ChunkDescriptor>) -> int
    decreases chunks.len(),
{
    if chunks.len() == 0 {
        0
    } else {
        12 + chunks[0].length + spec_stream_len(chunks.skip(1))
    }
}

/// The file after the `count` bytes at `at` were overwritten with everything
/// that follows them. What followed has moved left by `count`; the file keeps
/// its length, so its last `count` bytes are as they were.
pub open spec fn spec_close_gap(data: Seq<u8>, at: int, count: int) -> Seq<u8> {
    Seq::new(
        data.len(),
        |i: int|
            if at <= i < data.len() - count {
                data[i + count]
            } else {
                data[i]
            },
    )
}

/// The file after each `zTXt` chunk among `chunks`, a stream that starts at
/// `pos`, was overwritten in turn with what follows it.
pub open spec fn spec_remove_text_chunks(
    data: Seq<u8>,
    chunks: Seq<ChunkDescriptor>,
    pos: int,
) -> Seq<u8>
    decreases chunks.len(),
{
    if chunks.len() == 0 {
        data
    } else if chunks[0].name == FourCC::new(ZTXT) {
        spec_remove_text_chunks(
            spec_close_gap(data, pos, 12 + chunks[0].length),
            chunks.skip(1),
            pos,
        )
    } else {
        spec_remove_text_chunks(data, chunks.skip(1), pos + 12 + chunks[0].length)
    }
}

/// The file after its metadata was cleared: a file that does not parse is
/// left alone.
pub open spec fn spec_clear_metadata_from_png(data: Seq<u8>) -> Seq<u8> {
    match spec_parse_png(data) {
        Ok(chunks) => spec_remove_text_chunks(data, chunks, 8),
        Err(_) => data,
    }
}

/// The chunks of a stream that are not `zTXt` chunks, in their order.
pub open spec fn spec_without_text(chunks: Seq<ChunkDescriptor>) -> Seq<ChunkDescriptor>
    decreases chunks.len(),
{
    if chunks.len() == 0 {
        chunks
    } else if chunks[0].name == FourCC::new(ZTXT) {
        spec_without_text(chunks.skip(1))
    } else {
        seq![chunks[0]] + spec_without_text(chunks.skip(1))
    }
}

/// Tag and payload of the `zTXt` chunk that carries a compressed EXIF blob:
/// the bytes that its CRC covers.
pub open spec fn spec_exif_chunk_body(compressed: Seq<u8>) -> Seq<u8> {
    ZTXT@ + RAW_PROFILE_TYPE_EXIF@ + compressed
}

/// The whole `zTXt` chunk that carries a compressed EXIF blob: the payload
/// length, the tag, the profile marker, the blob, and the CRC of all but the
/// length.
#[verifier::opaque]
pub open spec fn spec_exif_chunk(compressed: Seq<u8>) -> Seq<u8> {
    be_bytes(23 + compressed.len() as int) + spec_exif_chunk_body(compressed) + be_bytes(
        spec_crc32(spec_exif_chunk_body(compressed)) as int,
    )
}

/// Where a new chunk goes: behind the first chunk of the file, whose length
/// field stands directly behind the signature.
pub open spec fn spec_insert_offset(data: Seq<u8>) -> int {
    8 + 12 + spec_u32_be(data, 8)
}

/// The file with the `zTXt` chunk for `compressed` put in behind its first
/// chunk.
pub open spec fn spec_insert_exif_chunk(data: Seq<u8>, compressed: Seq<u8>) -> Seq<u8> {
    spec_insert_bytes(data, spec_insert_offset(data), spec_exif_chunk(compressed))
}

/// The stream of a file after a `zTXt` chunk with `payload_len` payload bytes
/// was put in behind its first chunk. Behind an `IEND` no walk looks.
pub open spec fn spec_with_text(chunks: Seq<ChunkDescriptor>, payload_len: int) -> Seq<
    ChunkDescriptor,
> {
    if chunks.len() == 0 || chunks[0].name == FourCC::new(IEND) {
        chunks
    } else {
        seq![chunks[0], ChunkDescriptor { name: FourCC::new(ZTXT), length: payload_len as u32 }]
            + chunks.skip(1)
    }
}

/// Where the chunk with index `k` of a stream starts.
pub open spec fn spec_chunk_offset(chunks: Seq<ChunkDescriptor>, k: int) -> int {
    8 + spec_stream_len(chunks.take(k))
}

/// What the first `zTXt` chunk of a stream that starts at `pos` holds behind
/// the 23 bytes of the profile marker: the compressed metadata as it is
/// stored. Nothing, where the stream has no such chunk or its payload is
/// shorter than the marker.
pub open spec fn spec_stored_blob(data: Seq<u8>, chunks: Seq<ChunkDescriptor>, pos: int) -> Seq<u8>
    decreases chunks.len(),
{
    if chunks.len() == 0 {
        Seq::empty()
    } else if chunks[0].name == FourCC::new(ZTXT) {
        if chunks[0].length < 23 {
            Seq::empty()
        } else {
            data.subrange(pos + 31, pos + 8 + chunks[0].length)
        }
    } else {
        spec_stored_blob(data, chunks.skip(1), pos + 12 + chunks[0].length)
    }
}

/// The compressed metadata that a PNG file stores; nothing, where it stores
/// none.
pub open spec fn spec_read_stored_metadata(data: Seq<u8>) -> Result<Seq<u8>, Error> {
    match spec_parse_png(data) {
        Err(e) => Err(e),
        Ok(chunks) => Ok(spec_stored_blob(data, chunks, 8)),
    }
}

/// Checks the signature and returns the offset of the first chunk.
pub fn check_signature(data: &[u8]) -> (res: Result<usize, Error>)
    ensures
        has_png_signature(data@) ==> res == Ok::<usize, Error>(8),
        !has_png_signature(data@) ==> res == Err::<usize, Error>(Error::InvalidSignature),
{
    if data.len() < 8 {
        return Err(Error::InvalidSignature);
    }
    let mut i: usize = 0;
    while i < 8
        invariant
            i <= 8 <= data@.len(),
            forall|j: int| 0 <= j < i ==> data@[j] == PNG_SIGNATURE@[j],
        decreases 8 - i,
    {
        if data[i] != PNG_SIGNATURE[i] {
            assert(data@.subrange(0, 8)[i as int] == data@[i as int]);
            return Err(Error::InvalidSignature);
        }
        i += 1;
    }
    assert(data@.subrange(0, 8) =~= PNG_SIGNATURE@);
    Ok(8)
}

/// Reads the chunk that starts at `pos` and checks its CRC.
pub fn get_next_chunk_descriptor(data: &[u8], pos: usize) -> (res: Result<ChunkDescriptor, Error>)
    ensures
        res == spec_chunk_at(data@, pos as int),
{
    let total = data.len();
    if total < pos || total - pos < 8 {
        return Err(Error::TruncatedData);
    }
    let length = read_u32_be(data, pos);
    let room = total - pos - 8;
    if (room as u64) < (length as u64) + 4 {
        return Err(Error::TruncatedData);
    }
    let end = pos + 8 + length as usize;
    let stored = read_u32_be(data, end);
    let sum = crc32(vstd::slice::slice_subrange(data, pos + 4, end));
    if stored != sum {
        return Err(Error::ChecksumError);
    }
    Ok(ChunkDescriptor { name: FourCC::read(data, pos + 4), length })
}

/// Parses a PNG file: checks the signature, then reads chunk after chunk,
/// each with its CRC, up to and including `IEND`.
pub fn parse_png(data: &[u8]) -> (res: Result<Vec<ChunkDescriptor>, Error>)
    ensures
        match res {
            Ok(chunks) => spec_parse_png(data@) == Ok::<Seq<ChunkDescriptor>, Error>(chunks@),
            Err(e) => spec_parse_png(data@) == Err::<Seq<ChunkDescriptor>, Error>(e),
        },
{
    let mut pos = match check_signature(data) {
        Ok(start) => start,
        Err(e) => {
            return Err(e);
        },
    };
    let total = data.len();
    let mut chunks: Vec<ChunkDescriptor> = Vec::new();
    loop
        invariant
            total == data@.len(),
            has_png_signature(data@),
            8 <= pos <= data@.len(),
            spec_walk(data@, 8) == prepend(chunks@, spec_walk(data@, pos as int)),
        decreases data@.len() - pos,
    {
        match get_next_chunk_descriptor(data, pos) {
            Err(e) => {
                return Err(e);
            },
            Ok(chunk) => {
                let ghost before = chunks@;
                chunks.push(chunk);
                if chunk.name == FourCC::new(IEND) {
                    assert(before + seq![chunk] =~= chunks@);
                    return Ok(chunks);
                }
                proof {
                    lemma_chunk_at_ok(data@, pos as int);
                    let next = pos + 12 + chunk.length;
                    assert(spec_walk(data@, pos as int) == prepend(
                        seq![chunk],
                        spec_walk(data@, next),
                    ));
                    match spec_walk(data@, next) {
                        Ok(rest) => {
                            assert(before + (seq![chunk] + rest) =~= chunks@ + rest);
                        },
                        Err(_) => {},
                    }
                }
                pos = pos + 12 + chunk.length as usize;
            },
        }
    }
}

/// Finds the metadata of a PNG file: the stream is searched for the first
/// `zTXt` chunk, and what that chunk holds behind the profile marker is
/// returned as it is stored, still compressed. The marker itself is taken
/// on trust. A file without such a chunk has no metadata, which is no
/// failure: the result is empty.
pub fn read_stored_metadata(data: &[u8]) -> (res: Result<Vec<u8>, Error>)
    ensures
        match res {
            Ok(blob) => spec_read_stored_metadata(data@) == Ok::<Seq<u8>, Error>(blob@),
            Err(e) => spec_read_stored_metadata(data@) == Err::<Seq<u8>, Error>(e),
        },
{
    let chunks = match parse_png(data) {
        Ok(chunks) => chunks,
        Err(e) => {
            return Err(e);
        },
    };
    let total = data.len();
    let mut blob: Vec<u8> = Vec::new();
    let mut pos: usize = 8;
    let mut i: usize = 0;
    assert(chunks@.skip(0) =~= chunks@);
    while i < chunks.len()
        invariant
            i <= chunks@.len(),
            total == data@.len(),
            blob@.len() == 0,
            spec_parse_png(data@) == Ok::<Seq<ChunkDescriptor>, Error>(chunks@),
            i < chunks@.len() ==> spec_walk(data@, pos as int) == Ok::<Seq<ChunkDescriptor>, Error>(
                chunks@.skip(i as int),
            ),
            spec_stored_blob(data@, chunks@.skip(i as int), pos as int) == spec_stored_blob(
                data@,
                chunks@,
                8,
            ),
        decreases chunks@.len() - i,
    {
        let chunk = chunks[i];
        proof {
            lemma_walk_unfold(data@, pos as int);
            assert(chunks@.skip(i as int)[0] == chunk);
            assert(chunks@.skip(i as int).skip(1) =~= chunks@.skip(i + 1));
        }
        if chunk.name == FourCC::new(ZTXT) {
            if chunk.length >= 23 {
                push_range(&mut blob, data, pos + 31, pos + 8 + chunk.length as usize);
            }
            assert(blob@ =~= spec_stored_blob(data@, chunks@.skip(i as int), pos as int));
            return Ok(blob);
        }
        pos = pos + 12 + chunk.length as usize;
        i += 1;
    }
    assert(chunks@.skip(i as int).len() == 0);
    assert(blob@ =~= spec_stored_blob(data@, chunks@.skip(i as int), pos as int));
    Ok(blob)
}

/// Overwrites the `count` bytes at `at` with everything that follows them.
fn close_gap(file: &mut Vec<u8>, at: usize, count: usize)
    requires
        at + count <= old(file)@.len(),
    ensures
        final(file)@ == spec_close_gap(old(file)@, at as int, count as int),
{
    let total = file.len();
    let mut i: usize = at;
    while i < total - count
        invariant
            total == file@.len(),
            total == old(file)@.len(),
            at <= i,
            at + count <= total,
            i <= total - count,
            forall|j: int|
                0 <= j < total ==> file@[j] == if at <= j < i {
                    old(file)@[j + count]
                } else {
                    old(file)@[j]
                },
        decreases total - count - i,
    {
        let b = file[i + count];
        file.set(i, b);
        i += 1;
    }
    assert(file@ =~= spec_close_gap(old(file)@, at as int, count as int));
}

/// Clears the metadata of a PNG file: each `zTXt` chunk of its stream is
/// overwritten with everything that follows it, so that the chunks behind it
/// move up. The file keeps its length; what is left behind `IEND` is ignored
/// by every walk. A file that does not parse is refused and left alone.
pub fn clear_metadata_from_png(file: &mut Vec<u8>) -> (res: Result<(), Error>)
    ensures
        final(file)@ == spec_clear_metadata_from_png(old(file)@),
        match res {
            Ok(_) => spec_parse_png(old(file)@) is Ok,
            Err(e) => spec_parse_png(old(file)@) == Err::<Seq<ChunkDescriptor>, Error>(e),
        },
{
    let chunks = match parse_png(file.as_slice()) {
        Ok(chunks) => chunks,
        Err(e) => {
            return Err(e);
        },
    };
    let total = file.len();
    let mut pos: usize = 8;
    let mut i: usize = 0;
    assert(chunks@.skip(0) =~= chunks@);
    while i < chunks.len()
        invariant
            i <= chunks@.len(),
            total == file@.len(),
            total == old(file)@.len(),
            0 <= pos,
            i < chunks@.len() ==> spec_walk(file@, pos as int) == Ok::<Seq<ChunkDescriptor>, Error>(
                chunks@.skip(i as int),
            ),
            spec_remove_text_chunks(file@, chunks@.skip(i as int), pos as int)
                == spec_remove_text_chunks(old(file)@, chunks@, 8),
        decreases chunks@.len() - i,
    {
        let chunk = chunks[i];
        let ghost here = chunks@.skip(i as int);
        let ghost before = file@;
        proof {
            lemma_walk_unfold(file@, pos as int);
            assert(here[0] == chunk);
            assert(here.skip(1) =~= chunks@.skip(i + 1));
        }
        let span: usize = 12 + chunk.length as usize;
        if chunk.name == FourCC::new(ZTXT) {
            close_gap(file, pos, span);
            proof {
                lemma_walk_span(before, pos + span);
                let n = spec_stream_len(chunks@.skip(i + 1));
                assert(file@.subrange(pos as int, pos + n) =~= before.subrange(
                    pos + span,
                    pos + span + n,
                ));
                lemma_walk_moved(before, pos + span, file@, pos as int);
            }
        } else {
            pos = pos + span;
        }
        i += 1;
    }
    assert(chunks@.skip(i as int).len() == 0);
    Ok(())
}

/// Puts the `zTXt` chunk for an already compressed EXIF blob behind the first
/// chunk of a PNG file. The file is walked first and refused, unchanged, if
/// it does not parse; a blob too long for the chunk's 32-bit length field is
/// refused as well.
pub fn insert_exif_chunk(file: &mut Vec<u8>, compressed: &[u8]) -> (res: Result<(), Error>)
    ensures
        match spec_parse_png(old(file)@) {
            Err(e) => res == Err::<(), Error>(e) && final(file)@ == old(file)@,
            Ok(_) => if 23 + compressed@.len() > u32::MAX {
                res == Err::<(), Error>(Error::TooLarge) && final(file)@ == old(file)@
            } else {
                res is Ok && final(file)@ == spec_insert_exif_chunk(old(file)@, compressed@)
            },
        },
{
    let chunks = match parse_png(file.as_slice()) {
        Ok(chunks) => chunks,
        Err(e) => {
            return Err(e);
        },
    };
    if compressed.len() as u64 > 0xffff_ffff - 23 {
        return Err(Error::TooLarge);
    }
    let total = file.len();
    proof {
        lemma_walk_unfold(file@, 8);
    }
    let at: usize = 8 + 12 + chunks[0].length as usize;
    let mut body: Vec<u8> = Vec::new();
    push_range(&mut body, ZTXT.as_slice(), 0, 4);
    push_range(&mut body, RAW_PROFILE_TYPE_EXIF.as_slice(), 0, 23);
    push_range(&mut body, compressed, 0, compressed.len());
    assert(body@ =~= spec_exif_chunk_body(compressed@));
    let sum = crc32(body.as_slice());
    let mut out: Vec<u8> = Vec::new();
    push_range(&mut out, file.as_slice(), 0, at);
    push_u32_be(&mut out, 23 + compressed.len() as u32);
    push_range(&mut out, body.as_slice(), 0, body.len());
    push_u32_be(&mut out, sum);
    push_range(&mut out, file.as_slice(), at, file.len());
    assert(out@ =~= spec_insert_exif_chunk(file@, compressed@)) by {
        reveal(spec_exif_chunk);
    }
    *file = out;
    Ok(())
}

/// Writes EXIF metadata into a PNG file. Metadata already there is cleared
/// first; then the new metadata is compressed and put, as a `zTXt` chunk
/// behind the profile marker, after the first chunk. A file that does not
/// parse is refused and left alone. If the compressed metadata is too long
/// for a chunk, the file is left cleared.
pub fn write_metadata_to_png(file: &mut Vec<u8>, encoded_metadata: &Vec<u8>) -> (res: Result<
    (),
    Error,
>)
    ensures
        match spec_parse_png(old(file)@) {
            Err(e) => res == Err::<(), Error>(e) && final(file)@ == old(file)@,
            Ok(_) => if 23 + spec_deflate_zlib(encoded_metadata@).len() > u32::MAX {
                res == Err::<(), Error>(Error::TooLarge) && final(file)@
                    == spec_clear_metadata_from_png(old(file)@)
            } else {
                res is Ok && final(file)@ == spec_insert_exif_chunk(
                    spec_clear_metadata_from_png(old(file)@),
                    spec_deflate_zlib(encoded_metadata@),
                )
            },
        },
{
    match clear_metadata_from_png(file) {
        Err(e) => {
            return Err(e);
        },
        Ok(_) => {},
    }
    proof {
        lemma_clear_keeps_stream(old(file)@);
    }
    let compressed = deflate_zlib(encoded_metadata.as_slice());
    insert_exif_chunk(file, compressed.as_slice())
}

} // verus!
