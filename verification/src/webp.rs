//! WebP: the RIFF header, the chunk walk with its padding rule, the EXIF flag
//! of the `VP8X` chunk, and the removal and insertion of the `EXIF` chunk.

use crate::bytes::{
    le_bytes, push_range, push_u32_le, read_u32_le, spec_insert_bytes, spec_u32_le,
};
use crate::chunk::{prepend, ChunkDescriptor, FourCC};
use crate::error::Error;
use crate::webp_proofs::{
    lemma_clear_keeps_stream, lemma_clear_result_ok, lemma_encoded_len,
    lemma_flag_after_insert, lemma_insert_pos_on_walk, lemma_signature_bounds,
    lemma_walk_unfold,
};
use vstd::prelude::*;

verus! {

/// The tag that opens every RIFF file.
pub const RIFF_SIGNATURE: [u8; 4] = [0x52, 0x49, 0x46, 0x46];

/// The form type of a WebP file, at offset 8.
pub const WEBP_SIGNATURE: [u8; 4] = [0x57, 0x45, 0x42, 0x50];

/// The tag of the chunk that marks the extended format and holds the flags.
pub const VP8X_HEADER: [u8; 4] = [0x56, 0x50, 0x38, 0x58];

/// The tag of the chunk that holds the EXIF blob.
pub const EXIF_CHUNK_HEADER: [u8; 4] = [0x45, 0x58, 0x49, 0x46];

/// The tag of a lossy bitstream, the first chunk of a simple-format file.
pub const VP8_HEADER: [u8; 4] = [0x56, 0x50, 0x38, 0x20];

/// The tag of a lossless bitstream, the first chunk of a simple-format file.
pub const VP8L_HEADER: [u8; 4] = [0x56, 0x50, 0x38, 0x4c];

/// The tag of the colour profile chunk.
pub const ICCP_HEADER: [u8; 4] = [0x49, 0x43, 0x43, 0x50];

/// The tag of the animation parameters chunk.
pub const ANIM_HEADER: [u8; 4] = [0x41, 0x4e, 0x49, 0x4d];

/// `Exif` and two NUL bytes: what a general EXIF decoder expects in front of
/// the blob.
pub const EXIF_HEADER: [u8; 6] = [0x45, 0x78, 0x69, 0x66, 0x00, 0x00];

/// The bit of the first flags byte that announces an `EXIF` chunk.
pub const EXIF_FLAG: u8 = 0x08;

/// The longest file that a RIFF header can describe: its size field counts
/// all bytes but the first eight.
pub const MAX_FILE_LEN: u64 = 0x1_0000_0007;

/// What the header check finds: the `RIFF` tag, then a size field that
/// equals the file's length less eight, then the `WEBP` tag. Whichever of
/// the three is wrong, the file holds invalid data.
pub open spec fn spec_check_signature(data: Seq<u8>) -> Result<(), Error> {
    if data.len() < 4 || FourCC::spec_at(data, 0) != FourCC::new(RIFF_SIGNATURE) {
        Err(Error::InvalidData)
    } else if data.len() < 8 || spec_u32_le(data, 4) != data.len() - 8 {
        Err(Error::InvalidData)
    } else if data.len() < 12 || FourCC::spec_at(data, 8) != FourCC::new(WEBP_SIGNATURE) {
        Err(Error::InvalidData)
    } else {
        Ok(())
    }
}

/// The chunk that starts at `pos`, its length rounded up to the even number
/// of bytes that it takes up. At the very end of the file there is none;
/// anywhere else a chunk that the file does not hold whole is truncated. A
/// chunk that the file holds whole must have a tag that is text.
pub open spec fn spec_chunk_at(data: Seq<u8>, pos: int) -> Result<ChunkDescriptor, Error> {
    if pos < 0 || data.len() <= pos {
        Err(Error::UnexpectedEof)
    } else if data.len() - pos < 8 {
        Err(Error::TruncatedData)
    } else {
        let declared = spec_u32_le(data, pos + 4);
        let padded = declared + declared % 2;
        if data.len() - pos - 8 < padded {
            Err(Error::TruncatedData)
        } else if !FourCC::spec_at(data, pos).spec_is_text() {
            Err(Error::InvalidData)
        } else {
            Ok(ChunkDescriptor { name: FourCC::spec_at(data, pos), length: padded as u32 })
        }
    }
}

/// The chunks from `pos` to the end of the file, which must be the end of
/// the last chunk.
pub open spec fn spec_walk(data: Seq<u8>, pos: int) -> Result<Seq<ChunkDescriptor>, Error>
    decreases data.len() - pos,
{
    match spec_chunk_at(data, pos) {
        Err(Error::UnexpectedEof) => Ok(Seq::empty()),
        Err(e) => Err(e),
        Ok(chunk) => prepend(seq![chunk], spec_walk(data, pos + 8 + chunk.length)),
    }
}

/// The chunk stream of a WebP file.
pub open spec fn spec_parse_webp(data: Seq<u8>) -> Result<Seq<ChunkDescriptor>, Error> {
    match spec_check_signature(data) {
        Err(e) => Err(e),
        Ok(_) => spec_walk(data, 12),
    }
}

/// The bytes that a chunk stream takes up: eight for each chunk's tag and
/// length, and its padded payload.
pub open spec fn spec_stream_len(chunks: Seq<ChunkDescriptor>) -> int
    decreases chunks.len(),
{
    if chunks.len() == 0 {
        0
    } else {
        8 + chunks[0].length + spec_stream_len(chunks.skip(1))
    }
}

/// Whether a flags byte announces an `EXIF` chunk.
pub open spec fn spec_flag_set(flags: u8) -> bool {
    flags & EXIF_FLAG == EXIF_FLAG
}

/// Whether a stream starts with the chunk of the extended format. The tag is
/// compared without regard to case.
pub open spec fn spec_is_extended(chunks: Seq<ChunkDescriptor>) -> bool {
    chunks.len() > 0 && chunks[0].name.same_letters(FourCC::new(VP8X_HEADER))
}

/// Whether a stream starts with a bare bitstream, as a simple-format file
/// does.
pub open spec fn spec_is_simple(chunks: Seq<ChunkDescriptor>) -> bool {
    chunks.len() > 0 && (chunks[0].name == FourCC::new(VP8_HEADER) || chunks[0].name
        == FourCC::new(VP8L_HEADER))
}

/// What the search for metadata finds: the stream of a file that parses,
/// starts with a `VP8X` chunk of at least four payload bytes, and has the
/// EXIF flag set in the first of them, the byte at offset 20. A file without
/// any chunk ends where the first chunk is looked for; any other first chunk
/// is out of place, and the error names it.
pub open spec fn spec_check_exif_in_file(data: Seq<u8>) -> Result<Seq<ChunkDescriptor>, Error> {
    match spec_parse_webp(data) {
        Err(e) => Err(e),
        Ok(chunks) => if chunks.len() == 0 {
            Err(Error::UnexpectedEof)
        } else if !spec_is_extended(chunks) {
            Err(Error::UnexpectedChunkOrder(chunks[0].name))
        } else if chunks[0].length < 4 {
            Err(Error::TruncatedData)
        } else if !spec_flag_set(data[20]) {
            Err(Error::NoMetadata)
        } else {
            Ok(chunks)
        },
    }
}

/// The bytes that a listed chunk takes up in the file: tag, length, payload,
/// and a padding byte where the listed length is odd.
pub open spec fn spec_chunk_span(chunk: ChunkDescriptor) -> int {
    8 + chunk.length + chunk.length % 2
}

/// The blob of the first chunk named `EXIF`, in any case of letters, behind
/// the six bytes of `EXIF_HEADER`: as many payload bytes as the chunk's own
/// length field declares, without the byte that pads an odd length. The
/// file is visited from `pos` by the lengths that `chunks` lists, and each
/// tag met must be the listed one. Where list and file end together, the
/// file holds no metadata.
pub open spec fn spec_find_exif(data: Seq<u8>, chunks: Seq<ChunkDescriptor>, pos: int) -> Result<
    Seq<u8>,
    Error,
>
    decreases chunks.len(),
{
    if chunks.len() == 0 && pos == data.len() {
        Err(Error::NoMetadata)
    } else if pos < 0 || pos + 4 > data.len() {
        Err(Error::TruncatedData)
    } else if chunks.len() == 0 || FourCC::spec_at(data, pos) != chunks[0].name {
        Err(Error::InconsistentState)
    } else if chunks[0].name.same_letters(FourCC::new(EXIF_CHUNK_HEADER)) {
        if pos + 8 > data.len() || pos + 8 + spec_u32_le(data, pos + 4) > data.len() {
            Err(Error::TruncatedData)
        } else {
            Ok(EXIF_HEADER@ + data.subrange(pos + 8, pos + 8 + spec_u32_le(data, pos + 4)))
        }
    } else {
        spec_find_exif(data, chunks.skip(1), pos + spec_chunk_span(chunks[0]))
    }
}

/// What reading the metadata of a file gives.
pub open spec fn spec_read_metadata(data: Seq<u8>) -> Result<Seq<u8>, Error> {
    match spec_check_exif_in_file(data) {
        Err(e) => Err(e),
        Ok(chunks) => spec_find_exif(data, chunks, 12),
    }
}

/// The file with the EXIF flag, a bit of the byte at offset 20, set or
/// cleared.
pub open spec fn spec_with_flag(data: Seq<u8>, value: bool) -> Seq<u8> {
    data.update(
        20,
        if value {
            data[20] | EXIF_FLAG
        } else {
            data[20] & !EXIF_FLAG
        },
    )
}

/// The file with its size field, the four bytes at offset 4, set to the
/// file's length less eight.
pub open spec fn spec_with_size(data: Seq<u8>) -> Seq<u8> {
    data.subrange(0, 4) + le_bytes(data.len() - 8) + data.subrange(8, data.len() as int)
}

/// Why a file cannot be given the `VP8X` chunk that it lacks: turning a
/// simple-format file, whose first chunk is `VP8 ` or `VP8L`, into an
/// extended one is not implemented, and any other first chunk is out of
/// place, which the error says with its tag.
pub open spec fn spec_convert_to_extended_format(data: Seq<u8>) -> Result<(), Error> {
    match spec_chunk_at(data, 12) {
        Err(e) => Err(e),
        Ok(chunk) => if chunk.name == FourCC::new(VP8_HEADER) || chunk.name == FourCC::new(
            VP8L_HEADER,
        ) {
            Err(Error::NotImplemented)
        } else {
            Err(Error::UnexpectedChunkOrder(chunk.name))
        },
    }
}

/// Whether the EXIF flag of a file can be changed: the file parses and
/// starts with a `VP8X` chunk that has room for the flags.
pub open spec fn spec_set_exif_flag_result(data: Seq<u8>) -> Result<(), Error> {
    match spec_parse_webp(data) {
        Err(e) => Err(e),
        Ok(chunks) => if !spec_is_extended(chunks) {
            spec_convert_to_extended_format(data)
        } else if chunks[0].length < 4 {
            Err(Error::TruncatedData)
        } else {
            Ok(())
        },
    }
}

/// The `EXIF` chunk for a blob: the tag, the blob's length, the blob, and a
/// zero byte behind a blob of odd length.
#[verifier::opaque]
pub open spec fn spec_encode_metadata_webp(exif: Seq<u8>) -> Seq<u8> {
    EXIF_CHUNK_HEADER@ + le_bytes(exif.len() as int) + exif + spec_padding(exif.len())
}

/// Whether a tag names the chunk that holds the EXIF blob, in any case of
/// letters.
pub open spec fn spec_is_exif(name: FourCC) -> bool {
    name.same_letters(FourCC::new(EXIF_CHUNK_HEADER))
}

/// The bytes of the chunks from `pos` on that are not `EXIF` chunks, in their
/// order.
pub open spec fn spec_strip_from(data: Seq<u8>, pos: int) -> Seq<u8>
    decreases data.len() - pos,
{
    match spec_chunk_at(data, pos) {
        Err(_) => Seq::empty(),
        Ok(chunk) => if spec_is_exif(chunk.name) {
            spec_strip_from(data, pos + 8 + chunk.length)
        } else {
            data.subrange(pos, pos + 8 + chunk.length) + spec_strip_from(
                data,
                pos + 8 + chunk.length,
            )
        },
    }
}

/// The chunks of a stream that are not `EXIF` chunks, in their order.
pub open spec fn spec_without_exif(chunks: Seq<ChunkDescriptor>) -> Seq<ChunkDescriptor>
    decreases chunks.len(),
{
    if chunks.len() == 0 {
        chunks
    } else if spec_is_exif(chunks[0].name) {
        spec_without_exif(chunks.skip(1))
    } else {
        seq![chunks[0]] + spec_without_exif(chunks.skip(1))
    }
}

/// Whether clearing succeeds: on a file that parses and either is of the
/// simple format, which holds no metadata, or starts with a `VP8X` chunk
/// that has room for the flags.
pub open spec fn spec_clear_metadata_result(data: Seq<u8>) -> Result<(), Error> {
    match spec_parse_webp(data) {
        Err(e) => Err(e),
        Ok(chunks) => if spec_is_simple(chunks) {
            Ok(())
        } else {
            match spec_check_exif_in_file(data) {
                Ok(_) => Ok(()),
                Err(Error::NoMetadata) => Ok(()),
                Err(e) => Err(e),
            }
        },
    }
}

/// The file after its metadata was cleared. Where the flag announces
/// metadata, every `EXIF` chunk is cut out, the size field is set to the new
/// length, and the flag is cleared. Any other file stays as it is.
pub open spec fn spec_clear_metadata(data: Seq<u8>) -> Seq<u8> {
    if spec_check_exif_in_file(data) is Ok {
        spec_with_flag(
            spec_with_size(data.subrange(0, 12) + spec_strip_from(data, 12)),
            false,
        )
    } else {
        data
    }
}

/// Whether a chunk of this name has its place before the `EXIF` chunk. The
/// tag is compared without regard to case.
pub open spec fn spec_goes_before_exif(name: FourCC) -> bool {
    ||| name.same_letters(FourCC::new(VP8X_HEADER))
    ||| name.same_letters(FourCC::new(VP8_HEADER))
    ||| name.same_letters(FourCC::new(VP8L_HEADER))
    ||| name.same_letters(FourCC::new(ICCP_HEADER))
    ||| name.same_letters(FourCC::new(ANIM_HEADER))
}

/// Where the `EXIF` chunk goes: behind the chunks from `pos` on whose place
/// is before it, which is in front of the first other chunk, or at the end
/// of the file.
pub open spec fn spec_insert_pos(data: Seq<u8>, pos: int) -> int
    decreases data.len() - pos,
{
    match spec_chunk_at(data, pos) {
        Err(_) => pos,
        Ok(chunk) => if spec_goes_before_exif(chunk.name) {
            spec_insert_pos(data, pos + 8 + chunk.length)
        } else {
            pos
        },
    }
}

/// How the search for the place of the `EXIF` chunk ends: at that place,
/// unless the chunk found there cannot be read.
pub open spec fn spec_insert_pos_result(data: Seq<u8>) -> Result<int, Error> {
    match spec_chunk_at(data, spec_insert_pos(data, 12)) {
        Ok(_) => Ok(spec_insert_pos(data, 12)),
        Err(Error::UnexpectedEof) => Ok(spec_insert_pos(data, 12)),
        Err(e) => Err(e),
    }
}

/// Whether the `EXIF` chunk can be put in: into a file with a valid header
/// that stays within the length its header can describe, and whose leading
/// chunks can be read.
pub open spec fn spec_insert_exif_chunk_result(data: Seq<u8>, exif: Seq<u8>) -> Result<(), Error> {
    match spec_check_signature(data) {
        Err(e) => Err(e),
        Ok(_) => if data.len() + spec_encoded_len(exif.len()) > MAX_FILE_LEN {
            Err(Error::TooLarge)
        } else {
            match spec_insert_pos_result(data) {
                Err(e) => Err(e),
                Ok(_) => Ok(()),
            }
        },
    }
}

/// The file with the `EXIF` chunk for `exif` put into its place and the
/// size field set to the new length.
pub open spec fn spec_insert_exif_chunk(data: Seq<u8>, exif: Seq<u8>) -> Seq<u8> {
    spec_with_size(
        spec_insert_bytes(data, spec_insert_pos(data, 12), spec_encode_metadata_webp(exif)),
    )
}

/// What a walk records of the `EXIF` chunk for a blob of `len` bytes.
pub open spec fn spec_exif_descriptor(len: nat) -> ChunkDescriptor {
    ChunkDescriptor { name: FourCC::new(EXIF_CHUNK_HEADER), length: (len + len % 2) as u32 }
}

/// The stream with the descriptor of a new `EXIF` chunk behind the leading
/// chunks whose place is before it.
pub open spec fn spec_with_exif(chunks: Seq<ChunkDescriptor>, exif: ChunkDescriptor) -> Seq<
    ChunkDescriptor,
>
    decreases chunks.len(),
{
    if chunks.len() > 0 && spec_goes_before_exif(chunks[0].name) {
        seq![chunks[0]] + spec_with_exif(chunks.skip(1), exif)
    } else {
        seq![exif] + chunks
    }
}

/// The blob of the first `EXIF` chunk from `pos` on, if there is one: the
/// payload in the length that the chunk declares.
pub open spec fn spec_first_exif_payload(data: Seq<u8>, pos: int) -> Option<Seq<u8>>
    decreases data.len() - pos,
{
    match spec_chunk_at(data, pos) {
        Err(_) => None,
        Ok(chunk) => if spec_is_exif(chunk.name) {
            Some(data.subrange(pos + 8, pos + 8 + spec_u32_le(data, pos + 4)))
        } else {
            spec_first_exif_payload(data, pos + 8 + chunk.length)
        },
    }
}

/// The padding behind a blob: a zero byte if its length is odd.
pub open spec fn spec_padding(len: nat) -> Seq<u8> {
    if len % 2 != 0 {
        seq![0u8]
    } else {
        Seq::<u8>::empty()
    }
}

/// The length of the `EXIF` chunk for a blob of `len` bytes.
pub open spec fn spec_encoded_len(len: nat) -> nat {
    8 + len + len % 2
}

/// Whether writing succeeds. It fails where clearing fails; where the file
/// with the new chunk would be longer than a RIFF header can describe; and,
/// as the conversion is not implemented, on a simple-format file.
pub open spec fn spec_write_metadata_result(data: Seq<u8>, exif: Seq<u8>) -> Result<(), Error> {
    match spec_clear_metadata_result(data) {
        Err(e) => Err(e),
        Ok(_) => if spec_clear_metadata(data).len() + spec_encoded_len(exif.len())
            > MAX_FILE_LEN {
            Err(Error::TooLarge)
        } else if spec_is_simple(spec_parse_webp(data).unwrap()) {
            Err(Error::NotImplemented)
        } else {
            Ok(())
        },
    }
}

/// The file after metadata was written. Where clearing fails the file stays
/// as it is, and where the result would be too long it stays cleared.
/// Otherwise the new chunk stands in its place and the size field is right;
/// the flag is set unless the file is of the simple format.
pub open spec fn spec_write_metadata(data: Seq<u8>, exif: Seq<u8>) -> Seq<u8> {
    if spec_clear_metadata_result(data) is Err {
        data
    } else if spec_clear_metadata(data).len() + spec_encoded_len(exif.len()) > MAX_FILE_LEN {
        spec_clear_metadata(data)
    } else if spec_is_simple(spec_parse_webp(data).unwrap()) {
        spec_insert_exif_chunk(spec_clear_metadata(data), exif)
    } else {
        spec_with_flag(spec_insert_exif_chunk(spec_clear_metadata(data), exif), true)
    }
}

/// A chunk that can be read lies inside the file, and its recorded length is
/// the stored one rounded up to an even number.
pub proof fn lemma_chunk_at_ok(data: Seq<u8>, pos: int)
    requires
        spec_chunk_at(data, pos) is Ok,
        data.len() <= MAX_FILE_LEN,
    ensures
        0 <= pos,
        spec_chunk_at(data, pos).unwrap().name == FourCC::spec_at(data, pos),
        spec_chunk_at(data, pos).unwrap().name.spec_is_text(),
        spec_chunk_at(data, pos).unwrap().length == spec_u32_le(data, pos + 4) + spec_u32_le(
            data,
            pos + 4,
        ) % 2,
        spec_chunk_at(data, pos).unwrap().length % 2 == 0,
        pos + 8 + spec_chunk_at(data, pos).unwrap().length <= data.len(),
{
}

/// A chunk together with its payload, padding byte included.
#[derive(Debug)]
pub struct RiffChunk {
    pub descriptor: ChunkDescriptor,
    pub payload: Vec<u8>,
}

/// Checks the RIFF header and returns the offset of the first chunk.
pub fn check_signature(data: &[u8]) -> (res: Result<usize, Error>)
    ensures
        match res {
            Ok(start) => start == 12 && spec_check_signature(data@) is Ok,
            Err(e) => spec_check_signature(data@) == Err::<(), Error>(e),
        },
{
    let total = data.len();
    if total < 4 || !(FourCC::read(data, 0) == FourCC::new(RIFF_SIGNATURE)) {
        return Err(Error::InvalidData);
    }
    if total < 8 || read_u32_le(data, 4) as u64 + 8 != total as u64 {
        return Err(Error::InvalidData);
    }
    if total < 12 || !(FourCC::read(data, 8) == FourCC::new(WEBP_SIGNATURE)) {
        return Err(Error::InvalidData);
    }
    Ok(12)
}

/// Reads tag and length of the chunk that starts at `pos`. A tag that is no
/// text is refused once the chunk is known to lie whole in the file.
pub fn get_next_chunk_descriptor(data: &[u8], pos: usize) -> (res: Result<ChunkDescriptor, Error>)
    requires
        data@.len() <= MAX_FILE_LEN,
    ensures
        res == spec_chunk_at(data@, pos as int),
{
    let total = data.len();
    if total <= pos {
        return Err(Error::UnexpectedEof);
    }
    if total - pos < 8 {
        return Err(Error::TruncatedData);
    }
    let declared = read_u32_le(data, pos + 4);
    let padded: u64 = declared as u64 + (declared % 2) as u64;
    if ((total - pos - 8) as u64) < padded {
        return Err(Error::TruncatedData);
    }
    let name = FourCC::read(data, pos);
    if !name.is_text() {
        return Err(Error::InvalidData);
    }
    Ok(ChunkDescriptor { name, length: padded as u32 })
}

/// Reads the chunk that starts at `pos` with its payload.
pub fn get_next_chunk(data: &[u8], pos: usize) -> (res: Result<RiffChunk, Error>)
    requires
        data@.len() <= MAX_FILE_LEN,
    ensures
        match res {
            Ok(chunk) => spec_chunk_at(data@, pos as int) == Ok::<ChunkDescriptor, Error>(
                chunk.descriptor,
            ) && chunk.payload@ == data@.subrange(
                pos + 8,
                pos + 8 + chunk.descriptor.length as int,
            ),
            Err(e) => spec_chunk_at(data@, pos as int) == Err::<ChunkDescriptor, Error>(e),
        },
{
    let descriptor = match get_next_chunk_descriptor(data, pos) {
        Ok(descriptor) => descriptor,
        Err(e) => {
            return Err(e);
        },
    };
    let total = data.len();
    let mut payload: Vec<u8> = Vec::new();
    push_range(&mut payload, data, pos + 8, pos + 8 + descriptor.length as usize);
    Ok(RiffChunk { descriptor, payload })
}

/// Parses a WebP file: checks the header, then reads chunk after chunk until
/// the end of the last one is the end of the file.
pub fn parse_webp(data: &[u8]) -> (res: Result<Vec<ChunkDescriptor>, Error>)
    ensures
        match res {
            Ok(chunks) => spec_parse_webp(data@) == Ok::<Seq<ChunkDescriptor>, Error>(chunks@),
            Err(e) => spec_parse_webp(data@) == Err::<Seq<ChunkDescriptor>, Error>(e),
        },
{
    let mut pos = match check_signature(data) {
        Ok(start) => start,
        Err(e) => {
            return Err(e);
        },
    };
    let total = data.len();
    let mut chunks: Vec<ChunkDescriptor> = Vec::new();
    loop
        invariant
            total == data@.len(),
            total <= MAX_FILE_LEN,
            spec_check_signature(data@) is Ok,
            12 <= pos <= total,
            spec_walk(data@, 12) == prepend(chunks@, spec_walk(data@, pos as int)),
        decreases total - pos,
    {
        match get_next_chunk_descriptor(data, pos) {
            Err(Error::UnexpectedEof) => {
                assert(chunks@ + Seq::<ChunkDescriptor>::empty() =~= chunks@);
                return Ok(chunks);
            },
            Err(e) => {
                return Err(e);
            },
            Ok(chunk) => {
                let ghost before = chunks@;
                chunks.push(chunk);
                proof {
                    lemma_chunk_at_ok(data@, pos as int);
                    let next = pos + 8 + chunk.length;
                    match spec_walk(data@, next) {
                        Ok(rest) => {
                            assert(before + (seq![chunk] + rest) =~= chunks@ + rest);
                        },
                        Err(_) => {},
                    }
                }
                pos = pos + 8 + chunk.length as usize;
            },
        }
    }
}

/// Looks for the announcement of metadata: parses the file, asks that its
/// first chunk be `VP8X` with room for the flags, and that the EXIF flag be
/// set. Returns the stream for the search that follows.
pub fn check_exif_in_file(data: &[u8]) -> (res: Result<Vec<ChunkDescriptor>, Error>)
    ensures
        match res {
            Ok(chunks) => spec_check_exif_in_file(data@) == Ok::<Seq<ChunkDescriptor>, Error>(
                chunks@,
            ),
            Err(e) => spec_check_exif_in_file(data@) == Err::<Seq<ChunkDescriptor>, Error>(e),
        },
{
    let chunks = match parse_webp(data) {
        Ok(chunks) => chunks,
        Err(e) => {
            return Err(e);
        },
    };
    if chunks.len() == 0 {
        return Err(Error::UnexpectedEof);
    }
    if !chunks[0].name.eq_ignore_ascii_case(&FourCC::new(VP8X_HEADER)) {
        return Err(Error::UnexpectedChunkOrder(chunks[0].name));
    }
    if chunks[0].length < 4 {
        return Err(Error::TruncatedData);
    }
    proof {
        lemma_signature_bounds(data@);
        lemma_walk_unfold(data@, 12);
    }
    if data[20] & EXIF_FLAG != EXIF_FLAG {
        return Err(Error::NoMetadata);
    }
    Ok(chunks)
}

/// Visits the file chunk by chunk, by the lengths in `chunks`, and returns
/// the blob of the first chunk named `EXIF` behind the bytes of
/// `EXIF_HEADER`. The blob has the length that the chunk declares; a padding
/// byte is no part of it. A tag in the file that is not the listed one, or a
/// file that goes on where the list ends, is an inconsistent state. A file
/// that ends with the list holds no metadata; one that ends elsewhere
/// before the chunk was found is truncated.
pub fn find_exif_chunk(data: &[u8], chunks: &[ChunkDescriptor]) -> (res: Result<Vec<u8>, Error>)
    ensures
        match res {
            Ok(blob) => spec_find_exif(data@, chunks@, 12) == Ok::<Seq<u8>, Error>(blob@),
            Err(e) => spec_find_exif(data@, chunks@, 12) == Err::<Seq<u8>, Error>(e),
        },
{
    let total = data.len();
    let mut pos: usize = 12;
    let mut i: usize = 0;
    assert(chunks@.skip(0) =~= chunks@);
    loop
        invariant
            total == data@.len(),
            i <= chunks@.len(),
            spec_find_exif(data@, chunks@, 12) == spec_find_exif(
                data@,
                chunks@.skip(i as int),
                pos as int,
            ),
        decreases chunks@.len() - i,
    {
        if i >= chunks.len() && pos == total {
            return Err(Error::NoMetadata);
        }
        if total < 4 || pos > total - 4 {
            return Err(Error::TruncatedData);
        }
        if i >= chunks.len() {
            return Err(Error::InconsistentState);
        }
        let chunk = chunks[i];
        assert(chunks@.skip(i as int)[0] == chunk);
        assert(chunks@.skip(i as int).skip(1) =~= chunks@.skip(i + 1));
        if !(FourCC::read(data, pos) == chunk.name) {
            return Err(Error::InconsistentState);
        }
        let room: u64 = (total - pos) as u64;
        if chunk.name.eq_ignore_ascii_case(&FourCC::new(EXIF_CHUNK_HEADER)) {
            if room < 8 {
                return Err(Error::TruncatedData);
            }
            let declared = read_u32_le(data, pos + 4);
            if room - 8 < declared as u64 {
                return Err(Error::TruncatedData);
            }
            let mut blob: Vec<u8> = Vec::new();
            push_range(&mut blob, EXIF_HEADER.as_slice(), 0, 6);
            push_range(&mut blob, data, pos + 8, pos + 8 + declared as usize);
            assert(blob@ =~= EXIF_HEADER@ + data@.subrange(pos + 8, pos + 8 + declared));
            return Ok(blob);
        }
        let span: u64 = 8 + chunk.length as u64 + (chunk.length % 2) as u64;
        if room < span {
            assert(spec_find_exif(data@, chunks@.skip(i + 1), pos + span) == Err::<
                Seq<u8>,
                Error,
            >(Error::TruncatedData));
            return Err(Error::TruncatedData);
        }
        pos = pos + span as usize;
        i += 1;
    }
}

/// Reads the EXIF metadata of a WebP file: the blob of the first `EXIF`
/// chunk, in the length that the chunk declares, behind the bytes of
/// `EXIF_HEADER`. Where the flag announces metadata and the file holds no
/// such chunk, it has no metadata.
pub fn read_metadata(data: &[u8]) -> (res: Result<Vec<u8>, Error>)
    ensures
        match res {
            Ok(blob) => spec_read_metadata(data@) == Ok::<Seq<u8>, Error>(blob@),
            Err(e) => spec_read_metadata(data@) == Err::<Seq<u8>, Error>(e),
        },
{
    match check_exif_in_file(data) {
        Err(e) => Err(e),
        Ok(chunks) => find_exif_chunk(data, chunks.as_slice()),
    }
}

/// Refuses to turn a file without a `VP8X` chunk into an extended one: for a
/// simple-format file that is not implemented, and any other first chunk is
/// out of place.
pub fn convert_to_extended_format(data: &[u8]) -> (res: Result<(), Error>)
    requires
        data@.len() <= MAX_FILE_LEN,
    ensures
        res == spec_convert_to_extended_format(data@),
        res is Err,
{
    match get_next_chunk_descriptor(data, 12) {
        Err(e) => Err(e),
        Ok(chunk) => {
            if chunk.name == FourCC::new(VP8_HEADER) || chunk.name == FourCC::new(VP8L_HEADER) {
                Err(Error::NotImplemented)
            } else {
                Err(Error::UnexpectedChunkOrder(chunk.name))
            }
        },
    }
}

/// Sets or clears the EXIF flag in the `VP8X` chunk. The file is parsed
/// first; where it is refused it is left alone.
pub fn set_exif_flag(file: &mut Vec<u8>, exif_flag_value: bool) -> (res: Result<(), Error>)
    ensures
        res == spec_set_exif_flag_result(old(file)@),
        res is Ok ==> final(file)@ == spec_with_flag(old(file)@, exif_flag_value),
        res is Err ==> final(file)@ == old(file)@,
{
    let chunks = match parse_webp(file.as_slice()) {
        Ok(chunks) => chunks,
        Err(e) => {
            return Err(e);
        },
    };
    proof {
        lemma_signature_bounds(file@);
        lemma_walk_unfold(file@, 12);
    }
    if chunks.len() == 0 || !chunks[0].name.eq_ignore_ascii_case(&FourCC::new(VP8X_HEADER)) {
        match convert_to_extended_format(file.as_slice()) {
            Err(e) => {
                return Err(e);
            },
            Ok(_) => {},
        }
    }
    if chunks[0].length < 4 {
        return Err(Error::TruncatedData);
    }
    let flags = file[20];
    let changed = if exif_flag_value {
        flags | EXIF_FLAG
    } else {
        flags & !EXIF_FLAG
    };
    file.set(20, changed);
    Ok(())
}

/// Copies the header and every chunk that is no `EXIF` chunk.
fn strip_exif_chunks(data: &[u8], chunks: &[ChunkDescriptor]) -> (out: Vec<u8>)
    requires
        12 <= data@.len() <= MAX_FILE_LEN,
        spec_walk(data@, 12) == Ok::<Seq<ChunkDescriptor>, Error>(chunks@),
    ensures
        out@ == data@.subrange(0, 12) + spec_strip_from(data@, 12),
{
    let total = data.len();
    let mut out: Vec<u8> = Vec::new();
    push_range(&mut out, data, 0, 12);
    let mut pos: usize = 12;
    let mut i: usize = 0;
    assert(chunks@.skip(0) =~= chunks@);
    while i < chunks.len()
        invariant
            i <= chunks@.len(),
            total == data@.len(),
            total <= MAX_FILE_LEN,
            12 <= pos <= total,
            spec_walk(data@, pos as int) == Ok::<Seq<ChunkDescriptor>, Error>(
                chunks@.skip(i as int),
            ),
            out@ + spec_strip_from(data@, pos as int) == data@.subrange(0, 12) + spec_strip_from(
                data@,
                12,
            ),
        decreases chunks@.len() - i,
    {
        let chunk = chunks[i];
        proof {
            lemma_walk_unfold(data@, pos as int);
            assert(chunks@.skip(i as int)[0] == chunk);
            assert(chunks@.skip(i as int).skip(1) =~= chunks@.skip(i + 1));
        }
        let next: usize = pos + 8 + chunk.length as usize;
        let ghost before = out@;
        if !chunk.name.eq_ignore_ascii_case(&FourCC::new(EXIF_CHUNK_HEADER)) {
            push_range(&mut out, data, pos, next);
            assert(before + (data@.subrange(pos as int, next as int) + spec_strip_from(
                data@,
                next as int,
            )) =~= out@ + spec_strip_from(data@, next as int));
        }
        pos = next;
        i += 1;
    }
    proof {
        lemma_walk_unfold(data@, pos as int);
        assert(out@ + spec_strip_from(data@, pos as int) =~= out@);
    }
    out
}

/// Clears the metadata of a WebP file. Where the flag of the `VP8X` chunk
/// announces metadata, every `EXIF` chunk is cut out of the file, the size
/// field is set to the new length and the flag is cleared. A file of the
/// simple format, and one whose flag is not set, hold nothing to clear and
/// are left as they are. A file that is refused is left alone too.
pub fn clear_metadata(file: &mut Vec<u8>) -> (res: Result<(), Error>)
    ensures
        res == spec_clear_metadata_result(old(file)@),
        final(file)@ == spec_clear_metadata(old(file)@),
{
    let parsed = match parse_webp(file.as_slice()) {
        Ok(parsed) => parsed,
        Err(e) => {
            return Err(e);
        },
    };
    if parsed.len() > 0 && (parsed[0].name == FourCC::new(VP8_HEADER) || parsed[0].name
        == FourCC::new(VP8L_HEADER)) {
        return Ok(());
    }
    let chunks = match check_exif_in_file(file.as_slice()) {
        Ok(chunks) => chunks,
        Err(Error::NoMetadata) => {
            return Ok(());
        },
        Err(e) => {
            return Err(e);
        },
    };
    proof {
        lemma_signature_bounds(file@);
        lemma_clear_keeps_stream(file@);
    }
    let mut out = strip_exif_chunks(file.as_slice(), chunks.as_slice());
    set_size_field(&mut out);
    *file = out;
    set_exif_flag(file, false)
}

/// Builds the `EXIF` chunk for a blob: the tag, the blob's length in four
/// bytes, the blob, and a padding byte behind a blob of odd length.
pub fn encode_metadata_webp(exif_vec: &Vec<u8>) -> (webp_exif: Vec<u8>)
    requires
        exif_vec@.len() <= u32::MAX,
    ensures
        webp_exif@ == spec_encode_metadata_webp(exif_vec@),
{
    let mut webp_exif: Vec<u8> = Vec::new();
    let length = exif_vec.len() as u32;
    push_range(&mut webp_exif, EXIF_CHUNK_HEADER.as_slice(), 0, 4);
    push_u32_le(&mut webp_exif, length);
    push_range(&mut webp_exif, exif_vec.as_slice(), 0, exif_vec.len());
    if length % 2 != 0 {
        webp_exif.push(0);
    }
    assert(webp_exif@ =~= spec_encode_metadata_webp(exif_vec@)) by {
        reveal(spec_encode_metadata_webp);
    }
    webp_exif
}

/// Tells whether a chunk of this name has its place before the `EXIF` chunk.
pub fn goes_before_exif(name: &FourCC) -> (before: bool)
    ensures
        before == spec_goes_before_exif(*name),
{
    name.eq_ignore_ascii_case(&FourCC::new(VP8X_HEADER)) || name.eq_ignore_ascii_case(
        &FourCC::new(VP8_HEADER),
    ) || name.eq_ignore_ascii_case(&FourCC::new(VP8L_HEADER)) || name.eq_ignore_ascii_case(
        &FourCC::new(ICCP_HEADER),
    ) || name.eq_ignore_ascii_case(&FourCC::new(ANIM_HEADER))
}

/// Finds the place of the `EXIF` chunk: the chunks from offset 12 on are
/// read one after the other as long as their place is before it. The end of
/// the file ends the search like any other chunk; a chunk that cannot be
/// read fails it.
pub fn exif_insert_pos(data: &[u8]) -> (res: Result<usize, Error>)
    requires
        12 <= data@.len() <= MAX_FILE_LEN,
    ensures
        match res {
            Ok(pos) => spec_insert_pos_result(data@) == Ok::<int, Error>(pos as int) && 12 <= pos
                <= data@.len(),
            Err(e) => spec_insert_pos_result(data@) == Err::<int, Error>(e),
        },
{
    let total = data.len();
    let mut pos: usize = 12;
    loop
        invariant
            total == data@.len(),
            total <= MAX_FILE_LEN,
            12 <= pos <= total,
            spec_insert_pos(data@, pos as int) == spec_insert_pos(data@, 12),
        decreases total - pos,
    {
        match get_next_chunk_descriptor(data, pos) {
            Ok(chunk_descriptor) => {
                proof {
                    lemma_chunk_at_ok(data@, pos as int);
                }
                if !goes_before_exif(&chunk_descriptor.name) {
                    return Ok(pos);
                }
                pos = pos + 8 + chunk_descriptor.length as usize;
            },
            Err(Error::UnexpectedEof) => {
                return Ok(pos);
            },
            Err(e) => {
                return Err(e);
            },
        }
    }
}

/// Puts the `EXIF` chunk for a blob into its place and sets the size field
/// to the new length. A file without a valid header, one that would grow
/// beyond what the header can describe, and one whose leading chunks cannot
/// be read is refused and left alone.
pub fn insert_exif_chunk(file: &mut Vec<u8>, exif: &Vec<u8>) -> (res: Result<(), Error>)
    ensures
        res == spec_insert_exif_chunk_result(old(file)@, exif@),
        res is Ok ==> final(file)@ == spec_insert_exif_chunk(old(file)@, exif@),
        res is Err ==> final(file)@ == old(file)@,
{
    match check_signature(file.as_slice()) {
        Err(e) => {
            return Err(e);
        },
        Ok(_) => {},
    }
    proof {
        lemma_signature_bounds(file@);
    }
    let total = file.len();
    let blob_len = exif.len();
    if blob_len as u64 > 0xffff_ffff || total as u64 + 8 + blob_len as u64 + (blob_len
        % 2) as u64 > MAX_FILE_LEN {
        return Err(Error::TooLarge);
    }
    let pos = match exif_insert_pos(file.as_slice()) {
        Ok(pos) => pos,
        Err(e) => {
            return Err(e);
        },
    };
    let encoded_metadata = encode_metadata_webp(exif);
    let mut out: Vec<u8> = Vec::new();
    push_range(&mut out, file.as_slice(), 0, pos);
    push_range(&mut out, encoded_metadata.as_slice(), 0, encoded_metadata.len());
    push_range(&mut out, file.as_slice(), pos, total);
    proof {
        lemma_encoded_len(exif@);
        assert(out@ =~= spec_insert_bytes(
            old(file)@,
            pos as int,
            spec_encode_metadata_webp(exif@),
        ));
    }
    set_size_field(&mut out);
    *file = out;
    Ok(())
}

/// Writes EXIF metadata into a WebP file. Metadata already there is cleared
/// first. The blob then goes, as an `EXIF` chunk, behind the leading chunks
/// whose place is before it; the size field is set to the new length, and
/// the flag of the `VP8X` chunk is set. A file that clearing refuses is left
/// alone. A file that would grow beyond what its header can describe is left
/// cleared. A simple-format file gets the chunk and the size, and is then
/// refused, since it has no `VP8X` chunk and cannot be given one.
pub fn write_metadata(file: &mut Vec<u8>, general_encoded_metadata: &Vec<u8>) -> (res: Result<
    (),
    Error,
>)
    ensures
        res == spec_write_metadata_result(old(file)@, general_encoded_metadata@),
        final(file)@ == spec_write_metadata(old(file)@, general_encoded_metadata@),
{
    match clear_metadata(file) {
        Err(e) => {
            return Err(e);
        },
        Ok(_) => {},
    }
    proof {
        lemma_clear_result_ok(old(file)@);
        lemma_signature_bounds(file@);
        lemma_insert_pos_on_walk(file@, 12);
        if file@.len() + spec_encoded_len(general_encoded_metadata@.len()) <= MAX_FILE_LEN {
            lemma_flag_after_insert(file@, general_encoded_metadata@);
        }
    }
    match insert_exif_chunk(file, general_encoded_metadata) {
        Err(e) => {
            return Err(e);
        },
        Ok(_) => {},
    }
    set_exif_flag(file, true)
}

/// Writes the file's length less eight into its size field.
fn set_size_field(file: &mut Vec<u8>)
    requires
        8 <= old(file)@.len() <= MAX_FILE_LEN,
    ensures
        final(file)@ == spec_with_size(old(file)@),
{
    let size: u32 = (file.len() as u64 - 8) as u32;
    file.set(4, (size % 0x100) as u8);
    file.set(5, (size / 0x100 % 0x100) as u8);
    file.set(6, (size / 0x1_0000 % 0x100) as u8);
    file.set(7, (size / 0x100_0000 % 0x100) as u8);
    assert(file@ =~= spec_with_size(old(file)@));
}

} // verus!
