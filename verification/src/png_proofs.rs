//! What holds of PNG chunk walks, and of files after their metadata was
//! cleared or written.

use crate::bytes::{
    be_bytes, lemma_be_round_trip, lemma_insert_bytes, lemma_window_byte, lemma_window_part,
    spec_insert_bytes, spec_u32_be,
};
use crate::checksum::spec_crc32;
use crate::chunk::{ChunkDescriptor, FourCC};
use crate::error::Error;
use crate::png::{
    lemma_chunk_at_ok, spec_chunk_at, spec_chunk_offset, spec_clear_metadata_from_png,
    spec_close_gap, spec_exif_chunk, spec_exif_chunk_body, spec_insert_exif_chunk,
    spec_insert_offset, spec_parse_png, spec_read_stored_metadata, spec_remove_text_chunks,
    spec_stored_blob, spec_stream_len, spec_walk,
    spec_with_text, spec_without_text, IEND, RAW_PROFILE_TYPE_EXIF, ZTXT,
};
use vstd::prelude::*;

verus! {

/// A walk that succeeds starts with the chunk at its first position. If that
/// chunk is `IEND` the walk holds nothing else; otherwise the rest of it is
/// the walk that starts behind that chunk.
pub proof fn lemma_walk_unfold(data: Seq<u8>, pos: int)
    requires
        spec_walk(data, pos) is Ok,
    ensures
        spec_walk(data, pos).unwrap().len() >= 1,
        0 <= pos,
        spec_chunk_at(data, pos) == Ok::<ChunkDescriptor, Error>(spec_walk(data, pos).unwrap()[0]),
        pos + 12 + spec_walk(data, pos).unwrap()[0].length <= data.len(),
        spec_walk(data, pos).unwrap()[0].name == FourCC::new(IEND) ==> spec_walk(
            data,
            pos,
        ).unwrap().len() == 1,
        spec_walk(data, pos).unwrap()[0].name != FourCC::new(IEND) ==> spec_walk(
            data,
            pos + 12 + spec_walk(data, pos).unwrap()[0].length,
        ) == Ok::<Seq<ChunkDescriptor>, Error>(spec_walk(data, pos).unwrap().skip(1)),
{
    lemma_chunk_at_ok(data, pos);
    let chunk = spec_chunk_at(data, pos).unwrap();
    if chunk.name != FourCC::new(IEND) {
        let rest = spec_walk(data, pos + 12 + chunk.length).unwrap();
        assert((seq![chunk] + rest).skip(1) =~= rest);
    }
}

/// A walk that succeeds stays inside the file.
pub proof fn lemma_walk_span(data: Seq<u8>, pos: int)
    requires
        spec_walk(data, pos) is Ok,
    ensures
        0 <= pos,
        spec_stream_len(spec_walk(data, pos).unwrap()) >= 12,
        pos + spec_stream_len(spec_walk(data, pos).unwrap()) <= data.len(),
    decreases data.len() - pos,
{
    lemma_walk_unfold(data, pos);
    let chunks = spec_walk(data, pos).unwrap();
    if chunks[0].name != FourCC::new(IEND) {
        lemma_walk_span(data, pos + 12 + chunks[0].length);
    } else {
        assert(chunks.skip(1).len() == 0);
        assert(spec_stream_len(chunks.skip(1)) == 0);
    }
}

/// The chunk at a position depends only on the bytes of that chunk.
pub proof fn lemma_chunk_moved(a: Seq<u8>, pa: int, b: Seq<u8>, pb: int)
    requires
        spec_chunk_at(a, pa) is Ok,
        0 <= pb,
        pb + 12 + spec_chunk_at(a, pa).unwrap().length <= b.len(),
        a.subrange(pa, pa + 12 + spec_chunk_at(a, pa).unwrap().length) == b.subrange(
            pb,
            pb + 12 + spec_chunk_at(a, pa).unwrap().length,
        ),
    ensures
        spec_chunk_at(b, pb) == spec_chunk_at(a, pa),
{
    lemma_chunk_at_ok(a, pa);
    let length = spec_chunk_at(a, pa).unwrap().length as int;
    let n = 12 + length;
    lemma_window_byte(a, pa, b, pb, n, 0);
    lemma_window_byte(a, pa, b, pb, n, 1);
    lemma_window_byte(a, pa, b, pb, n, 2);
    lemma_window_byte(a, pa, b, pb, n, 3);
    lemma_window_byte(a, pa, b, pb, n, 4);
    lemma_window_byte(a, pa, b, pb, n, 5);
    lemma_window_byte(a, pa, b, pb, n, 6);
    lemma_window_byte(a, pa, b, pb, n, 7);
    lemma_window_byte(a, pa, b, pb, n, 8 + length);
    lemma_window_byte(a, pa, b, pb, n, 9 + length);
    lemma_window_byte(a, pa, b, pb, n, 10 + length);
    lemma_window_byte(a, pa, b, pb, n, 11 + length);
    lemma_window_part(a, pa, b, pb, n, 4, 8 + length);
}

/// A walk that succeeds depends only on the bytes it covers: the same bytes
/// at another place, or in another file, give the same chunks.
pub proof fn lemma_walk_moved(a: Seq<u8>, pa: int, b: Seq<u8>, pb: int)
    requires
        spec_walk(a, pa) is Ok,
        0 <= pb,
        pb + spec_stream_len(spec_walk(a, pa).unwrap()) <= b.len(),
        a.subrange(pa, pa + spec_stream_len(spec_walk(a, pa).unwrap())) == b.subrange(
            pb,
            pb + spec_stream_len(spec_walk(a, pa).unwrap()),
        ),
    ensures
        spec_walk(b, pb) == spec_walk(a, pa),
    decreases a.len() - pa,
{
    lemma_walk_unfold(a, pa);
    lemma_walk_span(a, pa);
    let chunks = spec_walk(a, pa).unwrap();
    let n = spec_stream_len(chunks);
    let step = 12 + chunks[0].length;
    if chunks[0].name != FourCC::new(IEND) {
        lemma_walk_span(a, pa + step);
        lemma_window_part(a, pa, b, pb, n, 0, step);
        lemma_window_part(a, pa, b, pb, n, step, n);
        lemma_chunk_moved(a, pa, b, pb);
        lemma_walk_moved(a, pa + step, b, pb + step);
    } else {
        assert(chunks.skip(1).len() == 0);
        assert(spec_stream_len(chunks.skip(1)) == 0);
        lemma_chunk_moved(a, pa, b, pb);
    }
}

/// Removing the `zTXt` chunks of a stream keeps the file's length and all
/// that stands before the stream, and leaves a stream of the other chunks.
pub proof fn lemma_remove_text_chunks(data: Seq<u8>, pos: int)
    requires
        spec_walk(data, pos) is Ok,
    ensures
        spec_remove_text_chunks(data, spec_walk(data, pos).unwrap(), pos).len() == data.len(),
        spec_remove_text_chunks(data, spec_walk(data, pos).unwrap(), pos).subrange(0, pos)
            == data.subrange(0, pos),
        spec_walk(spec_remove_text_chunks(data, spec_walk(data, pos).unwrap(), pos), pos) == Ok::<
            Seq<ChunkDescriptor>,
            Error,
        >(spec_without_text(spec_walk(data, pos).unwrap())),
    decreases spec_walk(data, pos).unwrap().len(),
{
    lemma_walk_unfold(data, pos);
    let chunks = spec_walk(data, pos).unwrap();
    let head = chunks[0];
    let rest = chunks.skip(1);
    let step = 12 + head.length;
    let out = spec_remove_text_chunks(data, chunks, pos);
    if head.name == FourCC::new(IEND) {
        assert(rest.len() == 0);
        assert(FourCC::new(IEND).b0 != FourCC::new(ZTXT).b0);
        assert(spec_remove_text_chunks(data, rest, pos + step) == data);
        assert(out == data);
        assert(spec_without_text(rest) =~= rest);
        assert(spec_without_text(chunks) =~= chunks);
    } else if head.name == FourCC::new(ZTXT) {
        let closed = spec_close_gap(data, pos, step);
        lemma_walk_span(data, pos + step);
        let n = spec_stream_len(rest);
        assert(closed.subrange(pos, pos + n) =~= data.subrange(pos + step, pos + step + n));
        lemma_walk_moved(data, pos + step, closed, pos);
        lemma_remove_text_chunks(closed, pos);
        assert(closed.subrange(0, pos) =~= data.subrange(0, pos));
    } else {
        lemma_remove_text_chunks(data, pos + step);
        lemma_window_part(data, 0, out, 0, pos + step, pos, pos + step);
        lemma_window_part(data, 0, out, 0, pos + step, 0, pos);
        lemma_chunk_moved(data, pos, out, pos);
    }
}

/// Clearing the metadata of a file that parses leaves a file that parses, of
/// the same length, whose stream is the old one without its `zTXt` chunks.
pub proof fn lemma_clear_keeps_stream(data: Seq<u8>)
    requires
        spec_parse_png(data) is Ok,
    ensures
        spec_clear_metadata_from_png(data).len() == data.len(),
        spec_parse_png(spec_clear_metadata_from_png(data)) == Ok::<Seq<ChunkDescriptor>, Error>(
            spec_without_text(spec_parse_png(data).unwrap()),
        ),
{
    lemma_remove_text_chunks(data, 8);
    let out = spec_clear_metadata_from_png(data);
    assert(out.subrange(0, 8) == data.subrange(0, 8));
}

/// A stream without `zTXt` chunks has nothing to remove.
pub proof fn lemma_nothing_to_remove(data: Seq<u8>, chunks: Seq<ChunkDescriptor>, pos: int)
    ensures
        spec_remove_text_chunks(data, spec_without_text(chunks), pos) == data,
    decreases chunks.len(),
{
    if chunks.len() > 0 {
        let rest = chunks.skip(1);
        if chunks[0].name == FourCC::new(ZTXT) {
            lemma_nothing_to_remove(data, rest, pos);
        } else {
            let kept = spec_without_text(chunks);
            assert(kept.skip(1) =~= spec_without_text(rest));
            lemma_nothing_to_remove(data, rest, pos + 12 + chunks[0].length);
        }
    }
}

/// Clearing twice is clearing once: the second call finds nothing to remove
/// and leaves every byte as the first call left it.
pub proof fn lemma_clear_twice(data: Seq<u8>)
    ensures
        spec_clear_metadata_from_png(spec_clear_metadata_from_png(data))
            == spec_clear_metadata_from_png(data),
{
    if spec_parse_png(data) is Ok {
        lemma_clear_keeps_stream(data);
        lemma_nothing_to_remove(
            spec_clear_metadata_from_png(data),
            spec_parse_png(data).unwrap(),
            8,
        );
    }
}

/// After clearing, the bytes that the stream takes up have shrunk by the
/// bytes of the removed chunks while the file has kept its length: stream
/// and file end together afterwards only if they did before and the stream
/// held no `zTXt` chunk.
pub proof fn lemma_clear_stream_len(data: Seq<u8>)
    requires
        spec_parse_png(data) is Ok,
    ensures
        8 + spec_stream_len(spec_parse_png(spec_clear_metadata_from_png(data)).unwrap())
            <= spec_clear_metadata_from_png(data).len(),
        spec_without_text(spec_parse_png(data).unwrap()) == spec_parse_png(data).unwrap()
            ==> spec_clear_metadata_from_png(data) == data,
{
    lemma_clear_keeps_stream(data);
    lemma_walk_span(spec_clear_metadata_from_png(data), 8);
    lemma_nothing_to_remove(data, spec_parse_png(data).unwrap(), 8);
}

/// The `zTXt` chunk built for a compressed blob reads back as a chunk of
/// that tag whose payload is the profile marker and the blob.
pub proof fn lemma_exif_chunk_reads_back(data: Seq<u8>, pos: int, compressed: Seq<u8>)
    requires
        0 <= pos,
        23 + compressed.len() <= u32::MAX,
        pos + 35 + compressed.len() <= data.len(),
        data.subrange(pos, pos + 35 + compressed.len()) == spec_exif_chunk(compressed),
    ensures
        spec_chunk_at(data, pos) == Ok::<ChunkDescriptor, Error>(
            ChunkDescriptor { name: FourCC::new(ZTXT), length: (23 + compressed.len()) as u32 },
        ),
        data.subrange(pos + 8, pos + 31) == RAW_PROFILE_TYPE_EXIF@,
        data.subrange(pos + 31, pos + 31 + compressed.len()) == compressed,
{
    reveal(spec_exif_chunk);
    let length = 23 + compressed.len() as int;
    let whole = spec_exif_chunk(compressed);
    let body = spec_exif_chunk_body(compressed);
    assert(whole.len() == 12 + length);
    assert(data.subrange(pos, pos + 4) =~= whole.subrange(0, 4));
    assert(whole.subrange(0, 4) =~= be_bytes(length));
    lemma_be_round_trip(data, pos, length);
    assert(data.subrange(pos + 4, pos + 8 + length) =~= whole.subrange(4, 8 + length));
    assert(whole.subrange(4, 8 + length) =~= body);
    assert(data.subrange(pos + 8 + length, pos + 12 + length) =~= whole.subrange(
        8 + length,
        12 + length,
    ));
    assert(whole.subrange(8 + length, 12 + length) =~= be_bytes(spec_crc32(body) as int));
    lemma_be_round_trip(data, pos + 8 + length, spec_crc32(body) as int);
    assert(data[pos + 4] == body[0] && data[pos + 5] == body[1] && data[pos + 6] == body[2]
        && data[pos + 7] == body[3]) by {
        assert(data.subrange(pos + 4, pos + 8 + length)[0] == data[pos + 4]);
        assert(data.subrange(pos + 4, pos + 8 + length)[1] == data[pos + 5]);
        assert(data.subrange(pos + 4, pos + 8 + length)[2] == data[pos + 6]);
        assert(data.subrange(pos + 4, pos + 8 + length)[3] == data[pos + 7]);
    }
    assert(data.subrange(pos + 8, pos + 31) =~= body.subrange(4, 27));
    assert(body.subrange(4, 27) =~= RAW_PROFILE_TYPE_EXIF@);
    assert(data.subrange(pos + 31, pos + 31 + compressed.len()) =~= body.subrange(
        27,
        27 + compressed.len() as int,
    ));
    assert(body.subrange(27, 27 + compressed.len() as int) =~= compressed);
}

/// Putting the `zTXt` chunk into a file that parses leaves a file that
/// parses. Unless the file started with `IEND`, its stream is the old one
/// with the new chunk in second place, and stream and file have grown by
/// the same number of bytes.
pub proof fn lemma_insert_keeps_stream(data: Seq<u8>, compressed: Seq<u8>)
    requires
        spec_parse_png(data) is Ok,
        23 + compressed.len() <= u32::MAX,
    ensures
        spec_insert_exif_chunk(data, compressed).len() == data.len() + 35 + compressed.len(),
        spec_parse_png(spec_insert_exif_chunk(data, compressed)) == Ok::<
            Seq<ChunkDescriptor>,
            Error,
        >(spec_with_text(spec_parse_png(data).unwrap(), 23 + compressed.len() as int)),
        spec_parse_png(data).unwrap()[0].name != FourCC::new(IEND) ==> spec_stream_len(
            spec_with_text(spec_parse_png(data).unwrap(), 23 + compressed.len() as int),
        ) == spec_stream_len(spec_parse_png(data).unwrap()) + 35 + compressed.len(),
{
    lemma_walk_unfold(data, 8);
    let chunks = spec_parse_png(data).unwrap();
    let at = spec_insert_offset(data);
    let piece = spec_exif_chunk(compressed);
    assert(piece.len() == 35 + compressed.len()) by {
        reveal(spec_exif_chunk);
    }
    lemma_insert_bytes(data, at, piece);
    lemma_inserted_stream(data, spec_insert_bytes(data, at, piece), compressed);
    if chunks[0].name != FourCC::new(IEND) {
        lemma_with_text(chunks, 23 + compressed.len() as int);
    }
}

/// A file that holds what the old file held up to its first chunk's end,
/// then the new chunk, then the rest of the old file, has the old stream
/// with the new chunk in second place.
proof fn lemma_inserted_stream(data: Seq<u8>, out: Seq<u8>, compressed: Seq<u8>)
    requires
        spec_parse_png(data) is Ok,
        23 + compressed.len() <= u32::MAX,
        spec_insert_offset(data) <= data.len(),
        out.len() == data.len() + 35 + compressed.len(),
        out.subrange(0, spec_insert_offset(data)) == data.subrange(0, spec_insert_offset(data)),
        out.subrange(spec_insert_offset(data), spec_insert_offset(data) + 35 + compressed.len())
            == spec_exif_chunk(compressed),
        out.subrange(spec_insert_offset(data) + 35 + compressed.len(), out.len() as int)
            == data.subrange(spec_insert_offset(data), data.len() as int),
    ensures
        spec_parse_png(out) == Ok::<Seq<ChunkDescriptor>, Error>(
            spec_with_text(spec_parse_png(data).unwrap(), 23 + compressed.len() as int),
        ),
{
    lemma_walk_unfold(data, 8);
    let chunks = spec_parse_png(data).unwrap();
    let at = spec_insert_offset(data);
    lemma_window_part(data, 0, out, 0, at, 0, 8);
    lemma_window_part(data, 0, out, 0, at, 8, at);
    lemma_chunk_moved(data, 8, out, 8);
    if chunks[0].name != FourCC::new(IEND) {
        lemma_walk_span(data, at);
        lemma_inserted_walk(data, out, at, compressed);
        lemma_with_text(chunks, 23 + compressed.len() as int);
    }
}

/// The stream with the new chunk in second place is the first chunk, the
/// new chunk and the rest, and takes up twelve bytes more than the old
/// stream and the new payload together.
proof fn lemma_with_text(chunks: Seq<ChunkDescriptor>, payload_len: int)
    requires
        chunks.len() > 0,
        chunks[0].name != FourCC::new(IEND),
        0 <= payload_len <= u32::MAX,
    ensures
        spec_with_text(chunks, payload_len) == seq![chunks[0]] + (seq![
            ChunkDescriptor { name: FourCC::new(ZTXT), length: payload_len as u32 },
        ] + chunks.skip(1)),
        spec_stream_len(spec_with_text(chunks, payload_len)) == spec_stream_len(chunks) + 12
            + payload_len,
{
    let tag = ChunkDescriptor { name: FourCC::new(ZTXT), length: payload_len as u32 };
    let rest = chunks.skip(1);
    let grown = spec_with_text(chunks, payload_len);
    assert(seq![chunks[0]] + (seq![tag] + rest) =~= grown);
    assert(grown.skip(1) =~= seq![tag] + rest);
    assert((seq![tag] + rest).skip(1) =~= rest);
    assert(spec_stream_len(seq![tag] + rest) == 12 + tag.length + spec_stream_len(rest));
    assert(spec_stream_len(grown) == 12 + chunks[0].length + spec_stream_len(seq![tag] + rest));
    assert(spec_stream_len(chunks) == 12 + chunks[0].length + spec_stream_len(rest));
}

/// The walk from the place of insertion finds the new chunk and then what
/// the old file held there.
proof fn lemma_inserted_walk(data: Seq<u8>, out: Seq<u8>, at: int, compressed: Seq<u8>)
    requires
        spec_walk(data, at) is Ok,
        23 + compressed.len() <= u32::MAX,
        0 <= at <= data.len(),
        out.len() == data.len() + 35 + compressed.len(),
        out.subrange(at, at + 35 + compressed.len()) == spec_exif_chunk(compressed),
        out.subrange(at + 35 + compressed.len(), out.len() as int) == data.subrange(
            at,
            data.len() as int,
        ),
    ensures
        spec_walk(out, at) == Ok::<Seq<ChunkDescriptor>, Error>(
            seq![
                ChunkDescriptor {
                    name: FourCC::new(ZTXT),
                    length: (23 + compressed.len()) as u32,
                },
            ] + spec_walk(data, at).unwrap(),
        ),
{
    let added = 35 + compressed.len() as int;
    lemma_walk_span(data, at);
    let n = spec_stream_len(spec_walk(data, at).unwrap());
    lemma_window_part(data, at, out, at + added, data.len() - at, 0, n);
    lemma_walk_moved(data, at, out, at + added);
    lemma_exif_chunk_reads_back(out, at, compressed);
    assert(FourCC::new(IEND).b0 != FourCC::new(ZTXT).b0);
}

/// Writing metadata into a file that parses leaves a file that parses. The
/// stream is the old one without its `zTXt` chunks and, unless it starts
/// with `IEND`, with the new `zTXt` chunk in second place. The payload of
/// that chunk is the profile marker followed by the compressed metadata.
pub proof fn lemma_write_keeps_stream(data: Seq<u8>, compressed: Seq<u8>)
    requires
        spec_parse_png(data) is Ok,
        23 + compressed.len() <= u32::MAX,
    ensures
        spec_insert_exif_chunk(spec_clear_metadata_from_png(data), compressed).len() == data.len()
            + 35 + compressed.len(),
        spec_parse_png(
            spec_insert_exif_chunk(spec_clear_metadata_from_png(data), compressed),
        ) == Ok::<Seq<ChunkDescriptor>, Error>(
            spec_with_text(
                spec_without_text(spec_parse_png(data).unwrap()),
                23 + compressed.len() as int,
            ),
        ),
        spec_without_text(spec_parse_png(data).unwrap()).len() >= 1,
        spec_without_text(spec_parse_png(data).unwrap())[0].name != FourCC::new(IEND) ==> {
            let at = spec_insert_offset(spec_clear_metadata_from_png(data));
            let out = spec_insert_exif_chunk(spec_clear_metadata_from_png(data), compressed);
            &&& at == 20 + spec_without_text(spec_parse_png(data).unwrap())[0].length
            &&& out.subrange(at + 8, at + 31) == RAW_PROFILE_TYPE_EXIF@
            &&& out.subrange(at + 31, at + 31 + compressed.len()) == compressed
        },
{
    let cleared = spec_clear_metadata_from_png(data);
    let chunks = spec_parse_png(data).unwrap();
    lemma_walk_unfold(data, 8);
    lemma_clear_keeps_stream(data);
    lemma_insert_keeps_stream(cleared, compressed);
    lemma_walk_unfold(cleared, 8);
    if spec_without_text(chunks)[0].name != FourCC::new(IEND) {
        let at = spec_insert_offset(cleared);
        let piece = spec_exif_chunk(compressed);
        let out = spec_insert_bytes(cleared, at, piece);
        assert(piece.len() == 35 + compressed.len()) by {
            reveal(spec_exif_chunk);
        }
        lemma_insert_bytes(cleared, at, piece);
        lemma_exif_chunk_reads_back(out, at, compressed);
    }
}

/// A file that its stream fills exactly, and that holds no metadata yet, is
/// filled exactly by its stream after metadata was written: signature and
/// chunks add up to the file's length before and after. A file whose stream
/// starts with `IEND` is left out: there the new chunk stands behind the end
/// of the stream.
pub proof fn lemma_exact_file_stays_exact(data: Seq<u8>, compressed: Seq<u8>)
    requires
        spec_parse_png(data) is Ok,
        23 + compressed.len() <= u32::MAX,
        8 + spec_stream_len(spec_parse_png(data).unwrap()) == data.len(),
        spec_without_text(spec_parse_png(data).unwrap()) == spec_parse_png(data).unwrap(),
        spec_parse_png(data).unwrap()[0].name != FourCC::new(IEND),
    ensures
        spec_clear_metadata_from_png(data) == data,
        spec_parse_png(
            spec_insert_exif_chunk(spec_clear_metadata_from_png(data), compressed),
        ) is Ok,
        8 + spec_stream_len(
            spec_parse_png(
                spec_insert_exif_chunk(spec_clear_metadata_from_png(data), compressed),
            ).unwrap(),
        ) == spec_insert_exif_chunk(spec_clear_metadata_from_png(data), compressed).len(),
{
    lemma_clear_stream_len(data);
    lemma_insert_keeps_stream(data, compressed);
}

/// What cleared files hold: no metadata.
pub proof fn lemma_cleared_file_stores_nothing(data: Seq<u8>)
    requires
        spec_parse_png(data) is Ok,
    ensures
        spec_read_stored_metadata(spec_clear_metadata_from_png(data)) == Ok::<Seq<u8>, Error>(
            Seq::empty(),
        ),
{
    lemma_clear_keeps_stream(data);
    lemma_no_text_no_blob(
        spec_clear_metadata_from_png(data),
        spec_parse_png(data).unwrap(),
        8,
    );
}

/// A stream without `zTXt` chunks stores no metadata.
pub proof fn lemma_no_text_no_blob(data: Seq<u8>, chunks: Seq<ChunkDescriptor>, pos: int)
    ensures
        spec_stored_blob(data, spec_without_text(chunks), pos) == Seq::<u8>::empty(),
    decreases chunks.len(),
{
    if chunks.len() > 0 {
        let rest = chunks.skip(1);
        if chunks[0].name == FourCC::new(ZTXT) {
            lemma_no_text_no_blob(data, rest, pos);
        } else {
            let kept = spec_without_text(chunks);
            assert(kept.skip(1) =~= spec_without_text(rest));
            lemma_no_text_no_blob(data, rest, pos + 12 + chunks[0].length);
        }
    }
}

/// Writing and then reading gives back what was stored: the file holds, as
/// its metadata, exactly the compressed blob that was written. Only a file
/// whose stream, once cleared, starts with `IEND` is left out: there the new
/// chunk stands behind the end of the stream, where no walk looks.
pub proof fn lemma_write_then_read_stored(data: Seq<u8>, compressed: Seq<u8>)
    requires
        spec_parse_png(data) is Ok,
        23 + compressed.len() <= u32::MAX,
        spec_without_text(spec_parse_png(data).unwrap())[0].name != FourCC::new(IEND),
    ensures
        spec_read_stored_metadata(
            spec_insert_exif_chunk(spec_clear_metadata_from_png(data), compressed),
        ) == Ok::<Seq<u8>, Error>(compressed),
{
    lemma_write_keeps_stream(data, compressed);
    lemma_clear_keeps_stream(data);
    let kept = spec_without_text(spec_parse_png(data).unwrap());
    let out = spec_insert_exif_chunk(spec_clear_metadata_from_png(data), compressed);
    let grown = spec_with_text(kept, 23 + compressed.len() as int);
    lemma_first_kept_is_no_text(spec_parse_png(data).unwrap());
    assert(grown.skip(1)[0].name == FourCC::new(ZTXT));
    assert(spec_stored_blob(out, grown, 8) == spec_stored_blob(
        out,
        grown.skip(1),
        20 + kept[0].length,
    ));
}

/// The first chunk that clearing keeps is no `zTXt` chunk.
pub proof fn lemma_first_kept_is_no_text(chunks: Seq<ChunkDescriptor>)
    requires
        spec_without_text(chunks).len() > 0,
    ensures
        spec_without_text(chunks)[0].name != FourCC::new(ZTXT),
    decreases chunks.len(),
{
    if chunks.len() > 0 && chunks[0].name == FourCC::new(ZTXT) {
        lemma_first_kept_is_no_text(chunks.skip(1));
    }
}

/// A file whose chunk `k` cannot be read for a wrong checksum, and which
/// holds before that chunk what a file that parses holds, is refused for
/// that checksum.
proof fn lemma_damaged_walk(data: Seq<u8>, bad: Seq<u8>, pos: int, k: int)
    requires
        spec_walk(data, pos) is Ok,
        0 <= k < spec_walk(data, pos).unwrap().len(),
        bad.len() == data.len(),
        bad.subrange(0, pos + spec_stream_len(spec_walk(data, pos).unwrap().take(k)))
            == data.subrange(0, pos + spec_stream_len(spec_walk(data, pos).unwrap().take(k))),
        spec_chunk_at(bad, pos + spec_stream_len(spec_walk(data, pos).unwrap().take(k))) == Err::<
            ChunkDescriptor,
            Error,
        >(Error::ChecksumError),
    ensures
        spec_walk(bad, pos) == Err::<Seq<ChunkDescriptor>, Error>(Error::ChecksumError),
    decreases k,
{
    lemma_walk_unfold(data, pos);
    let chunks = spec_walk(data, pos).unwrap();
    if k == 0 {
        assert(chunks.take(0).len() == 0);
    } else {
        let step = 12 + chunks[0].length;
        let rest = chunks.skip(1);
        assert(chunks.take(k)[0] == chunks[0]);
        assert(chunks.take(k).skip(1) =~= rest.take(k - 1));
        let off = pos + spec_stream_len(chunks.take(k));
        lemma_stream_len_positive(rest.take(k - 1));
        lemma_window_part(data, 0, bad, 0, off, pos, pos + step);
        lemma_chunk_moved(data, pos, bad, pos);
        lemma_damaged_walk(data, bad, pos + step, k - 1);
    }
}

/// A stream never takes up a negative number of bytes.
pub proof fn lemma_stream_len_positive(chunks: Seq<ChunkDescriptor>)
    ensures
        spec_stream_len(chunks) >= 0,
    decreases chunks.len(),
{
    if chunks.len() > 0 {
        lemma_stream_len_positive(chunks.skip(1));
    }
}

/// Every chunk of a stream lies inside the file, at its offset.
pub proof fn lemma_chunk_in_stream(data: Seq<u8>, pos: int, k: int)
    requires
        spec_walk(data, pos) is Ok,
        0 <= k < spec_walk(data, pos).unwrap().len(),
    ensures
        spec_chunk_at(data, pos + spec_stream_len(spec_walk(data, pos).unwrap().take(k))) == Ok::<
            ChunkDescriptor,
            Error,
        >(spec_walk(data, pos).unwrap()[k]),
        pos <= pos + spec_stream_len(spec_walk(data, pos).unwrap().take(k)),
        pos + spec_stream_len(spec_walk(data, pos).unwrap().take(k)) + 12 + spec_walk(
            data,
            pos,
        ).unwrap()[k].length <= data.len(),
    decreases k,
{
    lemma_walk_unfold(data, pos);
    let chunks = spec_walk(data, pos).unwrap();
    if k == 0 {
        assert(chunks.take(0).len() == 0);
    } else {
        let step = 12 + chunks[0].length;
        let rest = chunks.skip(1);
        assert(chunks.take(k)[0] == chunks[0]);
        assert(chunks.take(k).skip(1) =~= rest.take(k - 1));
        lemma_chunk_in_stream(data, pos + step, k - 1);
    }
}

/// Changing one byte of the CRC stored with a chunk of the stream makes the
/// file fail to parse, with a checksum error. A flipped bit is such a change.
pub proof fn lemma_crc_field_guarded(data: Seq<u8>, k: int, i: int, v: u8)
    requires
        spec_parse_png(data) is Ok,
        0 <= k < spec_parse_png(data).unwrap().len(),
        spec_chunk_offset(spec_parse_png(data).unwrap(), k) + 8 + spec_parse_png(
            data,
        ).unwrap()[k].length <= i < spec_chunk_offset(spec_parse_png(data).unwrap(), k) + 12
            + spec_parse_png(data).unwrap()[k].length,
        v != data[i],
    ensures
        spec_parse_png(data.update(i, v)) == Err::<Seq<ChunkDescriptor>, Error>(
            Error::ChecksumError,
        ),
{
    let chunks = spec_parse_png(data).unwrap();
    let off = spec_chunk_offset(chunks, k);
    let length = chunks[k].length as int;
    let bad = data.update(i, v);
    lemma_chunk_in_stream(data, 8, k);
    lemma_chunk_at_ok(data, off);
    assert(bad.subrange(0, off) =~= data.subrange(0, off));
    assert(bad.subrange(0, 8) =~= data.subrange(0, 8));
    assert(bad.subrange(off + 4, off + 8 + length) =~= data.subrange(off + 4, off + 8 + length));
    assert(spec_u32_be(bad, off + 8 + length) != spec_u32_be(data, off + 8 + length));
    lemma_damaged_walk(data, bad, 8, k);
}

/// Changing one byte of the tag or the payload of a chunk of the stream
/// makes the file fail to parse, with a checksum error, whenever the change
/// changes the checksum of tag and payload.
pub proof fn lemma_payload_guarded(data: Seq<u8>, k: int, i: int, v: u8)
    requires
        spec_parse_png(data) is Ok,
        0 <= k < spec_parse_png(data).unwrap().len(),
        spec_chunk_offset(spec_parse_png(data).unwrap(), k) + 4 <= i < spec_chunk_offset(
            spec_parse_png(data).unwrap(),
            k,
        ) + 8 + spec_parse_png(data).unwrap()[k].length,
        spec_crc32(
            data.update(i, v).subrange(
                spec_chunk_offset(spec_parse_png(data).unwrap(), k) + 4,
                spec_chunk_offset(spec_parse_png(data).unwrap(), k) + 8 + spec_parse_png(
                    data,
                ).unwrap()[k].length,
            ),
        ) != spec_crc32(
            data.subrange(
                spec_chunk_offset(spec_parse_png(data).unwrap(), k) + 4,
                spec_chunk_offset(spec_parse_png(data).unwrap(), k) + 8 + spec_parse_png(
                    data,
                ).unwrap()[k].length,
            ),
        ),
    ensures
        spec_parse_png(data.update(i, v)) == Err::<Seq<ChunkDescriptor>, Error>(
            Error::ChecksumError,
        ),
{
    let chunks = spec_parse_png(data).unwrap();
    let off = spec_chunk_offset(chunks, k);
    let length = chunks[k].length as int;
    let bad = data.update(i, v);
    lemma_chunk_in_stream(data, 8, k);
    lemma_chunk_at_ok(data, off);
    assert(bad.subrange(0, off) =~= data.subrange(0, off));
    assert(bad.subrange(0, 8) =~= data.subrange(0, 8));
    lemma_damaged_walk(data, bad, 8, k);
}

} // verus!
