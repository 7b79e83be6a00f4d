//! What holds of WebP chunk walks, and of files after their metadata was
//! cleared or written.

use crate::bytes::{
    le_bytes, lemma_insert_bytes, lemma_le_round_trip, lemma_window_byte, lemma_window_part,
    spec_insert_bytes, spec_u32_le,
};
use crate::chunk::{ChunkDescriptor, FourCC};
use crate::error::Error;
use crate::webp::{
    lemma_chunk_at_ok, spec_check_exif_in_file, spec_check_signature, spec_chunk_at,
    spec_clear_metadata, spec_clear_metadata_result, spec_encode_metadata_webp, spec_encoded_len,
    spec_exif_descriptor, spec_find_exif, spec_first_exif_payload, spec_flag_set,
    spec_goes_before_exif, spec_insert_exif_chunk, spec_insert_pos, spec_is_exif, spec_is_extended,
    spec_is_simple, spec_parse_webp, spec_read_metadata, spec_set_exif_flag_result,
    spec_stream_len, spec_strip_from, spec_walk, spec_with_exif, spec_with_flag, spec_with_size,
    spec_without_exif, spec_write_metadata, spec_write_metadata_result, EXIF_CHUNK_HEADER,
    EXIF_FLAG, EXIF_HEADER,
    MAX_FILE_LEN, RIFF_SIGNATURE, VP8L_HEADER, VP8X_HEADER, VP8_HEADER, WEBP_SIGNATURE,
};
use vstd::prelude::*;

verus! {

/// A file with a valid header has the length its size field gives: twelve
/// bytes at least, and no more than the field can describe.
pub proof fn lemma_signature_bounds(data: Seq<u8>)
    requires
        spec_check_signature(data) is Ok,
    ensures
        12 <= data.len() <= MAX_FILE_LEN,
        spec_u32_le(data, 4) == data.len() - 8,
{
}

/// A walk that succeeds is empty at the end of the file. Anywhere else it
/// starts with the chunk at its first position, and the rest of it is the
/// walk that starts behind that chunk.
pub proof fn lemma_walk_unfold(data: Seq<u8>, pos: int)
    requires
        spec_walk(data, pos) is Ok,
        0 <= pos,
        data.len() <= MAX_FILE_LEN,
    ensures
        spec_walk(data, pos).unwrap().len() == 0 <==> data.len() <= pos,
        spec_walk(data, pos).unwrap().len() > 0 ==> {
            &&& spec_chunk_at(data, pos) == Ok::<ChunkDescriptor, Error>(
                spec_walk(data, pos).unwrap()[0],
            )
            &&& spec_walk(data, pos).unwrap()[0].length % 2 == 0
            &&& pos + 8 + spec_walk(data, pos).unwrap()[0].length <= data.len()
            &&& spec_walk(data, pos + 8 + spec_walk(data, pos).unwrap()[0].length) == Ok::<
                Seq<ChunkDescriptor>,
                Error,
            >(spec_walk(data, pos).unwrap().skip(1))
        },
{
    if spec_chunk_at(data, pos) is Ok {
        lemma_chunk_at_ok(data, pos);
        let chunk = spec_chunk_at(data, pos).unwrap();
        let rest = spec_walk(data, pos + 8 + chunk.length).unwrap();
        assert((seq![chunk] + rest).skip(1) =~= rest);
    }
}

/// A walk that succeeds ends where the file ends.
pub proof fn lemma_walk_total(data: Seq<u8>, pos: int)
    requires
        spec_walk(data, pos) is Ok,
        0 <= pos <= data.len(),
        data.len() <= MAX_FILE_LEN,
    ensures
        pos + spec_stream_len(spec_walk(data, pos).unwrap()) == data.len(),
    decreases data.len() - pos,
{
    lemma_walk_unfold(data, pos);
    let chunks = spec_walk(data, pos).unwrap();
    if chunks.len() > 0 {
        lemma_walk_total(data, pos + 8 + chunks[0].length);
    }
}

/// The chunk at a position depends only on its eight header bytes and on
/// whether the file holds it whole.
pub proof fn lemma_chunk_moved(a: Seq<u8>, pa: int, b: Seq<u8>, pb: int)
    requires
        spec_chunk_at(a, pa) is Ok,
        a.len() <= MAX_FILE_LEN,
        0 <= pb,
        pb + 8 + spec_chunk_at(a, pa).unwrap().length <= b.len(),
        a.subrange(pa, pa + 8) == b.subrange(pb, pb + 8),
    ensures
        spec_chunk_at(b, pb) == spec_chunk_at(a, pa),
{
    lemma_chunk_at_ok(a, pa);
    lemma_window_byte(a, pa, b, pb, 8, 0);
    lemma_window_byte(a, pa, b, pb, 8, 1);
    lemma_window_byte(a, pa, b, pb, 8, 2);
    lemma_window_byte(a, pa, b, pb, 8, 3);
    lemma_window_byte(a, pa, b, pb, 8, 4);
    lemma_window_byte(a, pa, b, pb, 8, 5);
    lemma_window_byte(a, pa, b, pb, 8, 6);
    lemma_window_byte(a, pa, b, pb, 8, 7);
}

/// What is read at a position depends only on the bytes from there to the
/// end of the file.
pub proof fn lemma_chunk_suffix(a: Seq<u8>, pa: int, b: Seq<u8>, pb: int)
    requires
        0 <= pa <= a.len(),
        0 <= pb <= b.len(),
        a.subrange(pa, a.len() as int) == b.subrange(pb, b.len() as int),
    ensures
        spec_chunk_at(b, pb) == spec_chunk_at(a, pa),
{
    let n = a.len() - pa;
    assert(a.subrange(pa, a.len() as int).len() == n);
    assert(b.subrange(pb, b.len() as int).len() == b.len() - pb);
    if n >= 8 {
        lemma_window_byte(a, pa, b, pb, n, 0);
        lemma_window_byte(a, pa, b, pb, n, 1);
        lemma_window_byte(a, pa, b, pb, n, 2);
        lemma_window_byte(a, pa, b, pb, n, 3);
        lemma_window_byte(a, pa, b, pb, n, 4);
        lemma_window_byte(a, pa, b, pb, n, 5);
        lemma_window_byte(a, pa, b, pb, n, 6);
        lemma_window_byte(a, pa, b, pb, n, 7);
    }
}

/// A walk depends only on the bytes from its first position to the end of
/// the file.
pub proof fn lemma_walk_suffix(a: Seq<u8>, pa: int, b: Seq<u8>, pb: int)
    requires
        0 <= pa <= a.len(),
        0 <= pb <= b.len(),
        a.len() <= MAX_FILE_LEN,
        a.subrange(pa, a.len() as int) == b.subrange(pb, b.len() as int),
    ensures
        spec_walk(b, pb) == spec_walk(a, pa),
    decreases a.len() - pa,
{
    let n = a.len() - pa;
    assert(a.subrange(pa, a.len() as int).len() == n);
    assert(b.subrange(pb, b.len() as int).len() == b.len() - pb);
    lemma_chunk_suffix(a, pa, b, pb);
    if spec_chunk_at(a, pa) is Ok {
        lemma_chunk_at_ok(a, pa);
        let step = 8 + spec_chunk_at(a, pa).unwrap().length;
        lemma_window_part(a, pa, b, pb, n, step, n);
        lemma_walk_suffix(a, pa + step, b, pb + step);
    }
}

/// Behind any bytes, the chunks that stripping keeps form a walk of their
/// own: that of the old stream without its `EXIF` chunks.
pub proof fn lemma_strip_walk(front: Seq<u8>, data: Seq<u8>, pos: int)
    requires
        spec_walk(data, pos) is Ok,
        0 <= pos <= data.len(),
        data.len() <= MAX_FILE_LEN,
    ensures
        spec_strip_from(data, pos).len() <= data.len() - pos,
        front.len() + spec_strip_from(data, pos).len() <= MAX_FILE_LEN ==> spec_walk(
            front + spec_strip_from(data, pos),
            front.len() as int,
        ) == Ok::<Seq<ChunkDescriptor>, Error>(spec_without_exif(spec_walk(data, pos).unwrap())),
    decreases data.len() - pos,
{
    lemma_walk_unfold(data, pos);
    let chunks = spec_walk(data, pos).unwrap();
    let kept = spec_strip_from(data, pos);
    let out = front + kept;
    if chunks.len() == 0 {
        assert(kept.len() == 0);
        assert(out =~= front);
    } else {
        let head = chunks[0];
        let step = 8 + head.length;
        let rest = chunks.skip(1);
        if spec_is_exif(head.name) {
            lemma_strip_walk(front, data, pos + step);
        } else {
            let piece = data.subrange(pos, pos + step);
            let tail = spec_strip_from(data, pos + step);
            lemma_strip_walk(front + piece, data, pos + step);
            assert((front + piece) + tail =~= out);
            if front.len() + kept.len() <= MAX_FILE_LEN {
                let at = front.len() as int;
                assert(out.subrange(at, at + 8) =~= data.subrange(pos, pos + 8));
                lemma_chunk_moved(data, pos, out, at);
            }
        }
    }
}

/// Setting the bit sets it, and clearing it clears it.
pub proof fn lemma_flag_bit(flags: u8)
    ensures
        spec_flag_set(flags | EXIF_FLAG),
        !spec_flag_set(flags & !EXIF_FLAG),
        spec_flag_set(flags) ==> flags | EXIF_FLAG == flags,
        !spec_flag_set(flags) ==> flags & !EXIF_FLAG == flags,
{
    assert((flags | 0x08u8) & 0x08u8 == 0x08u8) by (bit_vector);
    assert((flags & !0x08u8) & 0x08u8 != 0x08u8) by (bit_vector);
    assert(flags & 0x08u8 == 0x08u8 ==> flags | 0x08u8 == flags) by (bit_vector);
    assert(flags & 0x08u8 != 0x08u8 ==> flags & !0x08u8 == flags) by (bit_vector);
}

/// Setting the size field of a file that has the two tags of the header in
/// place gives a valid header and leaves the chunks as they are.
pub proof fn lemma_with_size(data: Seq<u8>)
    requires
        12 <= data.len() <= MAX_FILE_LEN,
        FourCC::spec_at(data, 0) == FourCC::new(RIFF_SIGNATURE),
        FourCC::spec_at(data, 8) == FourCC::new(WEBP_SIGNATURE),
    ensures
        spec_with_size(data).len() == data.len(),
        spec_check_signature(spec_with_size(data)) is Ok,
        spec_with_size(data).subrange(12, data.len() as int) == data.subrange(
            12,
            data.len() as int,
        ),
        spec_walk(spec_with_size(data), 12) == spec_walk(data, 12),
{
    let out = spec_with_size(data);
    assert(out[0] == data[0] && out[1] == data[1] && out[2] == data[2] && out[3] == data[3]);
    assert(out[8] == data[8] && out[9] == data[9] && out[10] == data[10] && out[11] == data[11]);
    assert(out.subrange(4, 8) =~= le_bytes(data.len() - 8));
    lemma_le_round_trip(out, 4, data.len() - 8);
    assert(out.subrange(12, data.len() as int) =~= data.subrange(12, data.len() as int));
    lemma_walk_suffix(data, 12, out, 12);
}

/// Changing the flag of a file that starts with a `VP8X` chunk with room
/// for the flags changes one payload byte: the file parses as before.
pub proof fn lemma_with_flag(data: Seq<u8>, value: bool)
    requires
        spec_parse_webp(data) is Ok,
        spec_parse_webp(data).unwrap().len() > 0,
        spec_parse_webp(data).unwrap()[0].length >= 4,
    ensures
        spec_with_flag(data, value).len() == data.len(),
        spec_parse_webp(spec_with_flag(data, value)) == spec_parse_webp(data),
        spec_flag_set(spec_with_flag(data, value)[20]) == value,
{
    let out = spec_with_flag(data, value);
    lemma_signature_bounds(data);
    lemma_walk_unfold(data, 12);
    lemma_flag_bit(data[20]);
    let step = 8 + spec_parse_webp(data).unwrap()[0].length;
    assert(out.subrange(12, 20) =~= data.subrange(12, 20));
    lemma_chunk_moved(data, 12, out, 12);
    assert(out.subrange(12 + step, out.len() as int) =~= data.subrange(
        12 + step,
        data.len() as int,
    ));
    lemma_walk_suffix(data, 12 + step, out, 12 + step);
}

/// Clearing the metadata of a file whose flag announces it leaves a file
/// that parses and is no longer: its stream is the old one without the
/// `EXIF` chunks, the first chunk is still the `VP8X` chunk, and the flag is
/// cleared. The same holds, but for the flag, when the chunks are cut out
/// and the size field is set.
pub proof fn lemma_clear_keeps_stream(data: Seq<u8>)
    requires
        spec_check_exif_in_file(data) is Ok,
    ensures
        spec_clear_metadata(data).len() <= data.len(),
        spec_parse_webp(spec_with_size(data.subrange(0, 12) + spec_strip_from(data, 12))) == Ok::<
            Seq<ChunkDescriptor>,
            Error,
        >(spec_without_exif(spec_parse_webp(data).unwrap())),
        spec_parse_webp(spec_clear_metadata(data)) == Ok::<Seq<ChunkDescriptor>, Error>(
            spec_without_exif(spec_parse_webp(data).unwrap()),
        ),
        spec_without_exif(spec_parse_webp(data).unwrap()).len() > 0,
        spec_without_exif(spec_parse_webp(data).unwrap())[0] == spec_parse_webp(data).unwrap()[0],
        spec_check_exif_in_file(spec_clear_metadata(data)) == Err::<Seq<ChunkDescriptor>, Error>(
            Error::NoMetadata,
        ),
{
    lemma_signature_bounds(data);
    let chunks = spec_parse_webp(data).unwrap();
    let front = data.subrange(0, 12);
    let stripped = front + spec_strip_from(data, 12);
    lemma_strip_walk(front, data, 12);
    assert(FourCC::spec_at(stripped, 0) == FourCC::spec_at(data, 0));
    assert(FourCC::spec_at(stripped, 8) == FourCC::spec_at(data, 8));
    lemma_with_size(stripped);
    let sized = spec_with_size(stripped);
    lemma_extended_not_exif(chunks[0].name);
    lemma_with_flag(sized, false);
}

/// The chunk of the extended format is no `EXIF` chunk.
pub proof fn lemma_extended_not_exif(name: FourCC)
    requires
        name.same_letters(FourCC::new(VP8X_HEADER)),
    ensures
        !spec_is_exif(name),
{
}

/// Where clearing succeeds it leaves a file that parses and is no longer
/// than before, with the first chunk it had: the bitstream of a simple-format
/// file, or else a `VP8X` chunk with room for the flags.
pub proof fn lemma_clear_result_ok(data: Seq<u8>)
    requires
        spec_clear_metadata_result(data) is Ok,
    ensures
        spec_clear_metadata(data).len() <= data.len(),
        spec_parse_webp(data) is Ok,
        spec_parse_webp(spec_clear_metadata(data)) is Ok,
        spec_parse_webp(spec_clear_metadata(data)).unwrap().len() > 0,
        spec_parse_webp(spec_clear_metadata(data)).unwrap()[0] == spec_parse_webp(
            data,
        ).unwrap()[0],
        spec_is_simple(spec_parse_webp(data).unwrap()) != spec_is_extended(
            spec_parse_webp(data).unwrap(),
        ),
        spec_is_extended(spec_parse_webp(data).unwrap()) ==> spec_parse_webp(
            data,
        ).unwrap()[0].length >= 4,
        spec_check_exif_in_file(spec_clear_metadata(data)) is Err,
{
    if spec_check_exif_in_file(data) is Ok {
        lemma_clear_keeps_stream(data);
    }
}

/// The position of insertion lies at or behind the start of the search and
/// inside the file.
pub proof fn lemma_insert_pos_bounds(data: Seq<u8>, pos: int)
    requires
        0 <= pos <= data.len(),
        data.len() <= MAX_FILE_LEN,
    ensures
        pos <= spec_insert_pos(data, pos) <= data.len(),
    decreases data.len() - pos,
{
    if spec_chunk_at(data, pos) is Ok {
        lemma_chunk_at_ok(data, pos);
        let chunk = spec_chunk_at(data, pos).unwrap();
        if spec_goes_before_exif(chunk.name) {
            lemma_insert_pos_bounds(data, pos + 8 + chunk.length);
        }
    }
}

/// In a file whose chunks can all be read, the search for the place of the
/// `EXIF` chunk ends at a chunk or at the end of the file.
pub proof fn lemma_insert_pos_on_walk(data: Seq<u8>, pos: int)
    requires
        spec_walk(data, pos) is Ok,
        0 <= pos,
        data.len() <= MAX_FILE_LEN,
    ensures
        spec_chunk_at(data, spec_insert_pos(data, pos)) is Ok || spec_chunk_at(
            data,
            spec_insert_pos(data, pos),
        ) == Err::<ChunkDescriptor, Error>(Error::UnexpectedEof),
    decreases data.len() - pos,
{
    lemma_walk_unfold(data, pos);
    let chunks = spec_walk(data, pos).unwrap();
    if chunks.len() > 0 && spec_goes_before_exif(chunks[0].name) {
        lemma_insert_pos_on_walk(data, pos + 8 + chunks[0].length);
    }
}

/// The `EXIF` chunk for a blob has the blob's length, eight bytes more for
/// tag and length, and one more behind a blob of odd length.
pub proof fn lemma_encoded_len(exif: Seq<u8>)
    ensures
        spec_encode_metadata_webp(exif).len() == spec_encoded_len(exif.len()),
{
    reveal(spec_encode_metadata_webp);
}

/// The `EXIF` chunk built for a blob reads back as a chunk of that tag whose
/// payload is the blob and its padding byte.
pub proof fn lemma_encoded_chunk_reads_back(data: Seq<u8>, pos: int, exif: Seq<u8>)
    requires
        0 <= pos,
        exif.len() <= u32::MAX,
        data.len() <= MAX_FILE_LEN,
        pos + spec_encoded_len(exif.len()) <= data.len(),
        data.subrange(pos, pos + spec_encoded_len(exif.len())) == spec_encode_metadata_webp(exif),
    ensures
        spec_chunk_at(data, pos) == Ok::<ChunkDescriptor, Error>(
            spec_exif_descriptor(exif.len()),
        ),
        spec_u32_le(data, pos + 4) == exif.len(),
        data.subrange(pos + 8, pos + 8 + exif.len()) == exif,
{
    reveal(spec_encode_metadata_webp);
    FourCC::new(EXIF_CHUNK_HEADER).lemma_ascii_is_text();
    let n = spec_encoded_len(exif.len()) as int;
    let piece = spec_encode_metadata_webp(exif);
    assert(piece.len() == n);
    assert(piece.subrange(0, n) =~= piece);
    lemma_window_byte(data, pos, piece, 0, n, 0);
    lemma_window_byte(data, pos, piece, 0, n, 1);
    lemma_window_byte(data, pos, piece, 0, n, 2);
    lemma_window_byte(data, pos, piece, 0, n, 3);
    assert(data.subrange(pos + 4, pos + 8) =~= piece.subrange(4, 8));
    assert(piece.subrange(4, 8) =~= le_bytes(exif.len() as int));
    lemma_le_round_trip(data, pos + 4, exif.len() as int);
    assert(data.subrange(pos + 8, pos + 8 + exif.len()) =~= piece.subrange(
        8,
        8 + exif.len() as int,
    ));
    assert(piece.subrange(8, 8 + exif.len() as int) =~= exif);
}

/// Whether `out` is `data` with the `EXIF` chunk for `exif` put in at `at`.
pub open spec fn spec_holds_inserted(data: Seq<u8>, out: Seq<u8>, at: int, exif: Seq<u8>) -> bool {
    &&& 0 <= at <= data.len()
    &&& exif.len() <= u32::MAX
    &&& out.len() == data.len() + spec_encoded_len(exif.len())
    &&& out.len() <= MAX_FILE_LEN
    &&& out.subrange(0, at) == data.subrange(0, at)
    &&& out.subrange(at, at + spec_encoded_len(exif.len())) == spec_encode_metadata_webp(exif)
    &&& out.subrange(at + spec_encoded_len(exif.len()), out.len() as int) == data.subrange(
        at,
        data.len() as int,
    )
}

/// Putting bytes in makes a file that holds them.
pub proof fn lemma_holds_inserted(data: Seq<u8>, at: int, exif: Seq<u8>)
    requires
        0 <= at <= data.len(),
        exif.len() <= u32::MAX,
        data.len() + spec_encoded_len(exif.len()) <= MAX_FILE_LEN,
    ensures
        spec_holds_inserted(
            data,
            spec_insert_bytes(data, at, spec_encode_metadata_webp(exif)),
            at,
            exif,
        ),
{
    lemma_encoded_len(exif);
    lemma_insert_bytes(data, at, spec_encode_metadata_webp(exif));
}

/// A chunk that ends before the place of insertion is read as before.
proof fn lemma_chunk_before_inserted(
    data: Seq<u8>,
    out: Seq<u8>,
    at: int,
    exif: Seq<u8>,
    pos: int,
)
    requires
        spec_holds_inserted(data, out, at, exif),
        spec_chunk_at(data, pos) is Ok,
        pos + 8 + spec_chunk_at(data, pos).unwrap().length <= at,
    ensures
        spec_chunk_at(out, pos) == spec_chunk_at(data, pos),
{
    lemma_chunk_at_ok(data, pos);
    lemma_window_part(data, 0, out, 0, at, pos, pos + 8);
    lemma_chunk_moved(data, pos, out, pos);
}

/// The walk over a file with the new chunk put into its place finds the
/// leading chunks, the new chunk, and then the chunks that followed.
proof fn lemma_inserted_walk(data: Seq<u8>, out: Seq<u8>, pos: int, exif: Seq<u8>)
    requires
        spec_walk(data, pos) is Ok,
        0 <= pos <= data.len(),
        spec_holds_inserted(data, out, spec_insert_pos(data, pos), exif),
    ensures
        spec_walk(out, pos) == Ok::<Seq<ChunkDescriptor>, Error>(
            spec_with_exif(spec_walk(data, pos).unwrap(), spec_exif_descriptor(exif.len())),
        ),
    decreases data.len() - pos,
{
    lemma_walk_unfold(data, pos);
    let chunks = spec_walk(data, pos).unwrap();
    let at = spec_insert_pos(data, pos);
    if chunks.len() > 0 && spec_goes_before_exif(chunks[0].name) {
        let step = 8 + chunks[0].length;
        lemma_insert_pos_bounds(data, pos + step);
        lemma_inserted_walk(data, out, pos + step, exif);
        lemma_chunk_before_inserted(data, out, at, exif, pos);
    } else {
        assert(at == pos);
        lemma_encoded_chunk_reads_back(out, pos, exif);
        lemma_walk_suffix(data, pos, out, pos + spec_encoded_len(exif.len()));
    }
}

/// The walk over a file with the new chunk put into its place finds the
/// leading chunks, the new chunk, and then the chunks that followed.
pub proof fn lemma_insert_walk(data: Seq<u8>, pos: int, exif: Seq<u8>)
    requires
        spec_walk(data, pos) is Ok,
        0 <= pos <= data.len(),
        exif.len() <= u32::MAX,
        data.len() + spec_encoded_len(exif.len()) <= MAX_FILE_LEN,
    ensures
        spec_walk(
            spec_insert_bytes(data, spec_insert_pos(data, pos), spec_encode_metadata_webp(exif)),
            pos,
        ) == Ok::<Seq<ChunkDescriptor>, Error>(
            spec_with_exif(spec_walk(data, pos).unwrap(), spec_exif_descriptor(exif.len())),
        ),
{
    lemma_insert_pos_bounds(data, pos);
    lemma_holds_inserted(data, spec_insert_pos(data, pos), exif);
    lemma_inserted_walk(
        data,
        spec_insert_bytes(data, spec_insert_pos(data, pos), spec_encode_metadata_webp(exif)),
        pos,
        exif,
    );
}

/// Putting the new chunk into a file that parses, and setting the size
/// field, leaves a file that parses: its stream is the old one with the new
/// chunk behind the leading chunks whose place is before it. A first chunk
/// that is one of those is still the first, and its payload is untouched.
pub proof fn lemma_insert_keeps_stream(data: Seq<u8>, exif: Seq<u8>)
    requires
        spec_parse_webp(data) is Ok,
        exif.len() <= u32::MAX,
        data.len() + spec_encoded_len(exif.len()) <= MAX_FILE_LEN,
    ensures
        spec_insert_exif_chunk(data, exif).len() == data.len() + spec_encoded_len(exif.len()),
        spec_parse_webp(spec_insert_exif_chunk(data, exif)) == Ok::<Seq<ChunkDescriptor>, Error>(
            spec_with_exif(spec_parse_webp(data).unwrap(), spec_exif_descriptor(exif.len())),
        ),
        spec_parse_webp(data).unwrap().len() > 0 && spec_goes_before_exif(
            spec_parse_webp(data).unwrap()[0].name,
        ) ==> {
            &&& spec_with_exif(
                spec_parse_webp(data).unwrap(),
                spec_exif_descriptor(exif.len()),
            )[0] == spec_parse_webp(data).unwrap()[0]
            &&& spec_insert_pos(data, 12) >= 20 + spec_parse_webp(data).unwrap()[0].length
            &&& spec_insert_exif_chunk(data, exif).subrange(
                12,
                20 + spec_parse_webp(data).unwrap()[0].length,
            ) == data.subrange(12, 20 + spec_parse_webp(data).unwrap()[0].length)
        },
{
    lemma_signature_bounds(data);
    lemma_walk_unfold(data, 12);
    lemma_insert_pos_bounds(data, 12);
    let chunks = spec_parse_webp(data).unwrap();
    let at = spec_insert_pos(data, 12);
    let piece = spec_encode_metadata_webp(exif);
    let inserted = spec_insert_bytes(data, at, piece);
    lemma_encoded_len(exif);
    lemma_insert_bytes(data, at, piece);
    lemma_insert_walk(data, 12, exif);
    lemma_window_byte(data, 0, inserted, 0, at, 0);
    lemma_window_byte(data, 0, inserted, 0, at, 1);
    lemma_window_byte(data, 0, inserted, 0, at, 2);
    lemma_window_byte(data, 0, inserted, 0, at, 3);
    lemma_window_byte(data, 0, inserted, 0, at, 8);
    lemma_window_byte(data, 0, inserted, 0, at, 9);
    lemma_window_byte(data, 0, inserted, 0, at, 10);
    lemma_window_byte(data, 0, inserted, 0, at, 11);
    lemma_with_size(inserted);
    if chunks.len() > 0 && spec_goes_before_exif(chunks[0].name) {
        let end = 20 + chunks[0].length;
        lemma_insert_pos_bounds(data, end);
        lemma_window_part(data, 0, inserted, 0, at, 12, end);
        let sized = spec_with_size(inserted);
        lemma_window_part(inserted, 12, sized, 12, inserted.len() - 12, 0, end - 12);
    }
}

/// Whether the flag can be set once the new chunk is in: it can in a file
/// that starts with a `VP8X` chunk with room for the flags, and in a
/// simple-format file the missing conversion is what fails.
pub proof fn lemma_flag_after_insert(data: Seq<u8>, exif: Seq<u8>)
    requires
        spec_parse_webp(data) is Ok,
        spec_parse_webp(data).unwrap().len() > 0,
        spec_is_simple(spec_parse_webp(data).unwrap()) != spec_is_extended(
            spec_parse_webp(data).unwrap(),
        ),
        spec_is_extended(spec_parse_webp(data).unwrap()) ==> spec_parse_webp(
            data,
        ).unwrap()[0].length >= 4,
        exif.len() <= u32::MAX,
        data.len() + spec_encoded_len(exif.len()) <= MAX_FILE_LEN,
    ensures
        spec_set_exif_flag_result(spec_insert_exif_chunk(data, exif)) == if spec_is_simple(
            spec_parse_webp(data).unwrap(),
        ) {
            Err::<(), Error>(Error::NotImplemented)
        } else {
            Ok::<(), Error>(())
        },
{
    let chunks = spec_parse_webp(data).unwrap();
    lemma_first_goes_before(chunks[0].name);
    lemma_insert_keeps_stream(data, exif);
    let out = spec_insert_exif_chunk(data, exif);
    lemma_signature_bounds(out);
    lemma_walk_unfold(out, 12);
}

/// The first chunk of either format has its place before the `EXIF` chunk.
pub proof fn lemma_first_goes_before(name: FourCC)
    requires
        name.same_letters(FourCC::new(VP8X_HEADER)) || name == FourCC::new(VP8_HEADER) || name
            == FourCC::new(VP8L_HEADER),
    ensures
        spec_goes_before_exif(name),
{
}

/// A search that follows the chunks of the file itself never meets an
/// inconsistent state, nor a truncated file: it gives the blob of the first
/// `EXIF` chunk, or finds no metadata where there is none.
pub proof fn lemma_find_follows_walk(data: Seq<u8>, pos: int)
    requires
        spec_walk(data, pos) is Ok,
        0 <= pos <= data.len(),
        data.len() <= MAX_FILE_LEN,
    ensures
        spec_find_exif(data, spec_walk(data, pos).unwrap(), pos) == match spec_first_exif_payload(
            data,
            pos,
        ) {
            Some(payload) => Ok::<Seq<u8>, Error>(EXIF_HEADER@ + payload),
            None => Err::<Seq<u8>, Error>(Error::NoMetadata),
        },
    decreases data.len() - pos,
{
    lemma_walk_unfold(data, pos);
    let chunks = spec_walk(data, pos).unwrap();
    if chunks.len() > 0 && !spec_is_exif(chunks[0].name) {
        lemma_find_follows_walk(data, pos + 8 + chunks[0].length);
    }
}

/// The first `EXIF` payload from a position on depends only on the bytes
/// from there to the end of the file.
pub proof fn lemma_first_exif_suffix(a: Seq<u8>, pa: int, b: Seq<u8>, pb: int)
    requires
        0 <= pa <= a.len(),
        0 <= pb <= b.len(),
        a.len() <= MAX_FILE_LEN,
        a.subrange(pa, a.len() as int) == b.subrange(pb, b.len() as int),
    ensures
        spec_first_exif_payload(b, pb) == spec_first_exif_payload(a, pa),
    decreases a.len() - pa,
{
    let n = a.len() - pa;
    assert(a.subrange(pa, a.len() as int).len() == n);
    assert(b.subrange(pb, b.len() as int).len() == b.len() - pb);
    lemma_chunk_suffix(a, pa, b, pb);
    if spec_chunk_at(a, pa) is Ok {
        lemma_chunk_at_ok(a, pa);
        let step = 8 + spec_chunk_at(a, pa).unwrap().length;
        lemma_window_byte(a, pa, b, pb, n, 4);
        lemma_window_byte(a, pa, b, pb, n, 5);
        lemma_window_byte(a, pa, b, pb, n, 6);
        lemma_window_byte(a, pa, b, pb, n, 7);
        lemma_window_part(a, pa, b, pb, n, 8, 8 + spec_u32_le(a, pa + 4));
        lemma_window_part(a, pa, b, pb, n, step, n);
        lemma_first_exif_suffix(a, pa + step, b, pb + step);
    }
}

/// A chunk whose place is before the `EXIF` chunk is no `EXIF` chunk.
pub proof fn lemma_before_not_exif(name: FourCC)
    requires
        spec_goes_before_exif(name),
    ensures
        !spec_is_exif(name),
{
}

/// In a file with the new chunk put into its place, the first `EXIF` blob
/// is the one that was put in.
proof fn lemma_inserted_first_exif(data: Seq<u8>, out: Seq<u8>, pos: int, exif: Seq<u8>)
    requires
        spec_walk(data, pos) is Ok,
        0 <= pos <= data.len(),
        spec_holds_inserted(data, out, spec_insert_pos(data, pos), exif),
    ensures
        spec_first_exif_payload(out, pos) == Some(exif),
    decreases data.len() - pos,
{
    lemma_walk_unfold(data, pos);
    let chunks = spec_walk(data, pos).unwrap();
    let at = spec_insert_pos(data, pos);
    if chunks.len() > 0 && spec_goes_before_exif(chunks[0].name) {
        let step = 8 + chunks[0].length;
        lemma_before_not_exif(chunks[0].name);
        lemma_insert_pos_bounds(data, pos + step);
        lemma_inserted_first_exif(data, out, pos + step, exif);
        lemma_chunk_before_inserted(data, out, at, exif, pos);
    } else {
        assert(at == pos);
        lemma_encoded_chunk_reads_back(out, pos, exif);
    }
}

/// In a file with the new chunk put into its place, the first `EXIF` blob
/// is the one that was put in.
pub proof fn lemma_first_exif_after_insert(data: Seq<u8>, pos: int, exif: Seq<u8>)
    requires
        spec_walk(data, pos) is Ok,
        0 <= pos <= data.len(),
        exif.len() <= u32::MAX,
        data.len() + spec_encoded_len(exif.len()) <= MAX_FILE_LEN,
    ensures
        spec_first_exif_payload(
            spec_insert_bytes(data, spec_insert_pos(data, pos), spec_encode_metadata_webp(exif)),
            pos,
        ) == Some(exif),
{
    lemma_insert_pos_bounds(data, pos);
    lemma_holds_inserted(data, spec_insert_pos(data, pos), exif);
    lemma_inserted_first_exif(
        data,
        spec_insert_bytes(data, spec_insert_pos(data, pos), spec_encode_metadata_webp(exif)),
        pos,
        exif,
    );
}

/// A file that was written to announces its metadata: it parses, starts
/// with a `VP8X` chunk with room for the flags, and has the flag set.
proof fn lemma_written_file_announces(data: Seq<u8>, exif: Seq<u8>)
    requires
        spec_write_metadata_result(data, exif) is Ok,
    ensures
        spec_check_exif_in_file(spec_write_metadata(data, exif)) == spec_parse_webp(
            spec_write_metadata(data, exif),
        ),
        spec_parse_webp(spec_write_metadata(data, exif)) is Ok,
{
    lemma_clear_result_ok(data);
    let cleared = spec_clear_metadata(data);
    let chunks = spec_parse_webp(cleared).unwrap();
    lemma_first_goes_before(chunks[0].name);
    lemma_insert_keeps_stream(cleared, exif);
    lemma_with_flag(spec_insert_exif_chunk(cleared, exif), true);
}

/// Setting the size field and changing the flag leaves the header of the
/// first chunk, and all that stands behind the flags, as it was.
proof fn lemma_size_and_flag_touch_little(data: Seq<u8>, value: bool, end: int)
    requires
        24 <= end <= data.len(),
    ensures
        spec_with_flag(spec_with_size(data), value).len() == data.len(),
        spec_with_flag(spec_with_size(data), value).subrange(12, 20) == data.subrange(12, 20),
        spec_with_flag(spec_with_size(data), value).subrange(end, data.len() as int)
            == data.subrange(end, data.len() as int),
{
    let out = spec_with_flag(spec_with_size(data), value);
    assert(out.subrange(12, 20) =~= data.subrange(12, 20));
    assert(out.subrange(end, data.len() as int) =~= data.subrange(end, data.len() as int));
}

/// The first `EXIF` payload of a file does not depend on the file's header,
/// nor on the payload of a first chunk that is no `EXIF` chunk.
proof fn lemma_first_exif_behind_first_chunk(a: Seq<u8>, b: Seq<u8>)
    requires
        spec_chunk_at(a, 12) is Ok,
        !spec_is_exif(spec_chunk_at(a, 12).unwrap().name),
        a.len() == b.len(),
        a.len() <= MAX_FILE_LEN,
        a.subrange(12, 20) == b.subrange(12, 20),
        a.subrange(20 + spec_chunk_at(a, 12).unwrap().length, a.len() as int) == b.subrange(
            20 + spec_chunk_at(a, 12).unwrap().length,
            b.len() as int,
        ),
    ensures
        spec_first_exif_payload(b, 12) == spec_first_exif_payload(a, 12),
{
    lemma_chunk_at_ok(a, 12);
    let end = 20 + spec_chunk_at(a, 12).unwrap().length;
    lemma_chunk_moved(a, 12, b, 12);
    lemma_first_exif_suffix(a, end, b, end);
}

/// In a file that was written to, the first `EXIF` blob is the one that
/// was written.
proof fn lemma_written_first_exif(data: Seq<u8>, exif: Seq<u8>)
    requires
        spec_write_metadata_result(data, exif) is Ok,
    ensures
        spec_first_exif_payload(spec_write_metadata(data, exif), 12) == Some(exif),
{
    lemma_clear_result_ok(data);
    let cleared = spec_clear_metadata(data);
    lemma_signature_bounds(cleared);
    lemma_walk_unfold(cleared, 12);
    let first = spec_parse_webp(cleared).unwrap()[0];
    lemma_first_goes_before(first.name);
    lemma_before_not_exif(first.name);
    let at = spec_insert_pos(cleared, 12);
    let inserted = spec_insert_bytes(cleared, at, spec_encode_metadata_webp(exif));
    lemma_insert_pos_bounds(cleared, 20 + first.length);
    lemma_holds_inserted(cleared, at, exif);
    lemma_chunk_before_inserted(cleared, inserted, at, exif, 12);
    lemma_first_exif_after_insert(cleared, 12, exif);
    lemma_size_and_flag_touch_little(inserted, true, 20 + first.length);
    lemma_first_exif_behind_first_chunk(
        inserted,
        spec_with_flag(spec_with_size(inserted), true),
    );
}

/// Writing and then reading gives the blob back: behind the six bytes of
/// `EXIF_HEADER` stands exactly what was written, whatever its length.
pub proof fn lemma_write_then_read(data: Seq<u8>, exif: Seq<u8>)
    requires
        spec_write_metadata_result(data, exif) is Ok,
    ensures
        spec_read_metadata(spec_write_metadata(data, exif)) == Ok::<Seq<u8>, Error>(
            EXIF_HEADER@ + exif,
        ),
{
    let last = spec_write_metadata(data, exif);
    lemma_written_file_announces(data, exif);
    lemma_written_first_exif(data, exif);
    lemma_signature_bounds(last);
    lemma_find_follows_walk(last, 12);
}

/// Clearing twice is clearing once: the second call succeeds where the
/// first did, finds nothing to clear, and leaves every byte as it was.
pub proof fn lemma_clear_twice(data: Seq<u8>)
    ensures
        spec_clear_metadata(spec_clear_metadata(data)) == spec_clear_metadata(data),
        spec_clear_metadata_result(data) is Ok ==> spec_clear_metadata_result(
            spec_clear_metadata(data),
        ) is Ok,
{
    if spec_check_exif_in_file(data) is Ok {
        lemma_clear_keeps_stream(data);
    }
}

/// In a file that parses, the chunks and the twelve bytes of the header
/// fill the file exactly, and the size field holds the file's length less
/// eight.
pub proof fn lemma_parsed_file_consistent(data: Seq<u8>)
    requires
        spec_parse_webp(data) is Ok,
    ensures
        12 + spec_stream_len(spec_parse_webp(data).unwrap()) == data.len(),
        spec_u32_le(data, 4) == data.len() - 8,
{
    lemma_signature_bounds(data);
    lemma_walk_total(data, 12);
}

/// Where clearing succeeds it leaves a file that parses, filled exactly by
/// its header and chunks, with the right size field.
pub proof fn lemma_clear_leaves_consistent_file(data: Seq<u8>)
    requires
        spec_clear_metadata_result(data) is Ok,
    ensures
        spec_parse_webp(spec_clear_metadata(data)) is Ok,
        12 + spec_stream_len(spec_parse_webp(spec_clear_metadata(data)).unwrap())
            == spec_clear_metadata(data).len(),
        spec_u32_le(spec_clear_metadata(data), 4) == spec_clear_metadata(data).len() - 8,
{
    lemma_clear_result_ok(data);
    lemma_parsed_file_consistent(spec_clear_metadata(data));
}

/// Where the flag can be changed, the change leaves a file that parses as
/// before.
pub proof fn lemma_flag_leaves_consistent_file(data: Seq<u8>, value: bool)
    requires
        spec_set_exif_flag_result(data) is Ok,
    ensures
        spec_parse_webp(spec_with_flag(data, value)) == spec_parse_webp(data),
        spec_flag_set(spec_with_flag(data, value)[20]) == value,
{
    lemma_signature_bounds(data);
    lemma_with_flag(data, value);
}

/// Whenever writing touches the file, that is on every file that clearing
/// accepts, it leaves a file that parses, filled exactly by its header and
/// chunks, and the size field at offset 4 holds the file's length less
/// eight. This holds also where writing fails because the file would grow
/// too long or is of the simple format.
pub proof fn lemma_write_leaves_consistent_file(data: Seq<u8>, exif: Seq<u8>)
    requires
        spec_clear_metadata_result(data) is Ok,
    ensures
        spec_parse_webp(spec_write_metadata(data, exif)) is Ok,
        12 + spec_stream_len(spec_parse_webp(spec_write_metadata(data, exif)).unwrap())
            == spec_write_metadata(data, exif).len(),
        spec_u32_le(spec_write_metadata(data, exif), 4) == spec_write_metadata(data, exif).len()
            - 8,
{
    lemma_clear_result_ok(data);
    let cleared = spec_clear_metadata(data);
    lemma_signature_bounds(cleared);
    if cleared.len() + spec_encoded_len(exif.len()) <= MAX_FILE_LEN {
        lemma_insert_keeps_stream(cleared, exif);
        if !spec_is_simple(spec_parse_webp(data).unwrap()) {
            let chunks = spec_parse_webp(cleared).unwrap();
            lemma_first_goes_before(chunks[0].name);
            lemma_with_flag(spec_insert_exif_chunk(cleared, exif), true);
        }
    }
    lemma_parsed_file_consistent(spec_write_metadata(data, exif));
}

} // verus!
