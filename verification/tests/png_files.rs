use exif_container::chunk::{ChunkDescriptor, FourCC};
use exif_container::error::Error;
use exif_container::png::{
    check_signature, clear_metadata_from_png, get_next_chunk_descriptor, insert_exif_chunk,
    parse_png, read_stored_metadata, write_metadata_to_png, PNG_SIGNATURE,
    RAW_PROFILE_TYPE_EXIF,
};

const IHDR_CHUNK: [u8; 25] = [
    0x00, 0x00, 0x00, 0x0d, 0x49, 0x48, 0x44, 0x52, 0x00, 0x00, 0x00, 0x01, 0x00, 0x00, 0x00, 0x01,
    0x08, 0x06, 0x00, 0x00, 0x00, 0x1f, 0x15, 0xc4, 0x89,
];

const IEND_CHUNK: [u8; 12] = [
    0x00, 0x00, 0x00, 0x00, 0x49, 0x45, 0x4e, 0x44, 0xae, 0x42, 0x60, 0x82,
];

fn tag(name: &[u8; 4]) -> FourCC {
    FourCC::new(*name)
}

fn descriptor(name: &[u8; 4], length: u32) -> ChunkDescriptor {
    ChunkDescriptor { name: tag(name), length }
}

fn chunk(name: &[u8; 4], payload: &[u8]) -> Vec<u8> {
    let mut covered = name.to_vec();
    covered.extend_from_slice(payload);
    let sum = crc::Crc::<u32>::new(&crc::CRC_32_ISO_HDLC).checksum(&covered);
    let mut out = (payload.len() as u32).to_be_bytes().to_vec();
    out.extend_from_slice(&covered);
    out.extend_from_slice(&sum.to_be_bytes());
    out
}

fn minimal_png() -> Vec<u8> {
    let mut file = PNG_SIGNATURE.to_vec();
    file.extend_from_slice(&IHDR_CHUNK);
    file.extend_from_slice(&IEND_CHUNK);
    file
}

fn text_payload(blob: &[u8]) -> Vec<u8> {
    let mut payload = RAW_PROFILE_TYPE_EXIF.to_vec();
    payload.extend_from_slice(blob);
    payload
}

fn png_with_text() -> Vec<u8> {
    let mut file = PNG_SIGNATURE.to_vec();
    file.extend_from_slice(&IHDR_CHUNK);
    file.extend_from_slice(&chunk(b"zTXt", &text_payload(&[9, 8, 7, 6, 5])));
    file.extend_from_slice(&chunk(b"tEXt", b"Title\0x"));
    file.extend_from_slice(&IEND_CHUNK);
    file
}

#[test]
fn signature_is_accepted_and_points_behind_itself() {
    assert_eq!(check_signature(&minimal_png()), Ok(8));
}

#[test]
fn wrong_or_short_signature_is_refused() {
    let mut file = minimal_png();
    file[1] = 0x51;
    assert_eq!(check_signature(&file), Err(Error::InvalidSignature));
    assert_eq!(parse_png(&file), Err(Error::InvalidSignature));
    assert_eq!(parse_png(&PNG_SIGNATURE[..7]), Err(Error::InvalidSignature));
    assert_eq!(parse_png(&[]), Err(Error::InvalidSignature));
}

#[test]
fn minimal_file_parses_to_two_chunks() {
    let chunks = parse_png(&minimal_png()).unwrap();
    assert_eq!(chunks, vec![descriptor(b"IHDR", 13), descriptor(b"IEND", 0)]);
}

#[test]
fn chunk_reader_checks_known_checksums() {
    let file = minimal_png();
    assert_eq!(get_next_chunk_descriptor(&file, 8), Ok(descriptor(b"IHDR", 13)));
    assert_eq!(get_next_chunk_descriptor(&file, 33), Ok(descriptor(b"IEND", 0)));
    assert_eq!(get_next_chunk_descriptor(&file, 45), Err(Error::TruncatedData));
    assert_eq!(get_next_chunk_descriptor(&file, 46), Err(Error::TruncatedData));
}

#[test]
fn file_that_ends_early_is_truncated() {
    let file = minimal_png();
    assert_eq!(parse_png(&file[..8]), Err(Error::TruncatedData));
    assert_eq!(parse_png(&file[..15]), Err(Error::TruncatedData));
    assert_eq!(parse_png(&file[..30]), Err(Error::TruncatedData));
    assert_eq!(parse_png(&file[..33]), Err(Error::TruncatedData));
    assert_eq!(parse_png(&file[..44]), Err(Error::TruncatedData));
}

#[test]
fn bytes_behind_iend_are_ignored() {
    let mut file = minimal_png();
    file.extend_from_slice(&[1, 2, 3]);
    assert_eq!(parse_png(&file).unwrap().len(), 2);
}

#[test]
fn every_flipped_bit_in_payload_or_crc_is_a_checksum_error() {
    let file = minimal_png();
    for index in 16..33 {
        for bit in 0..8 {
            let mut damaged = file.clone();
            damaged[index] ^= 1 << bit;
            assert_eq!(parse_png(&damaged), Err(Error::ChecksumError));
        }
    }
    for index in 41..45 {
        for bit in 0..8 {
            let mut damaged = file.clone();
            damaged[index] ^= 1 << bit;
            assert_eq!(parse_png(&damaged), Err(Error::ChecksumError));
        }
    }
}

#[test]
fn clearing_a_file_without_metadata_changes_nothing() {
    let mut file = minimal_png();
    assert_eq!(clear_metadata_from_png(&mut file), Ok(()));
    assert_eq!(file, minimal_png());
}

#[test]
fn clearing_moves_later_chunks_up_and_keeps_the_length() {
    let mut file = png_with_text();
    let before = file.clone();
    assert_eq!(
        parse_png(&file).unwrap(),
        vec![
            descriptor(b"IHDR", 13),
            descriptor(b"zTXt", 28),
            descriptor(b"tEXt", 7),
            descriptor(b"IEND", 0)
        ]
    );
    assert_eq!(clear_metadata_from_png(&mut file), Ok(()));
    assert_eq!(file.len(), before.len());
    assert_eq!(file[..33], before[..33]);
    assert_eq!(file[33..before.len() - 40], before[73..]);
    assert_eq!(file[before.len() - 40..], before[before.len() - 40..]);
    assert_eq!(
        parse_png(&file).unwrap(),
        vec![descriptor(b"IHDR", 13), descriptor(b"tEXt", 7), descriptor(b"IEND", 0)]
    );
}

#[test]
fn clearing_removes_every_text_chunk() {
    let mut file = PNG_SIGNATURE.to_vec();
    file.extend_from_slice(&chunk(b"zTXt", &text_payload(&[1])));
    file.extend_from_slice(&IHDR_CHUNK);
    file.extend_from_slice(&chunk(b"zTXt", &text_payload(&[2, 3])));
    file.extend_from_slice(&chunk(b"zTXt", &text_payload(&[])));
    file.extend_from_slice(&IEND_CHUNK);
    assert_eq!(clear_metadata_from_png(&mut file), Ok(()));
    assert_eq!(file[..45], minimal_png()[..]);
    assert_eq!(parse_png(&file).unwrap(), vec![descriptor(b"IHDR", 13), descriptor(b"IEND", 0)]);
}

#[test]
fn clearing_twice_is_clearing_once() {
    let mut file = png_with_text();
    assert_eq!(clear_metadata_from_png(&mut file), Ok(()));
    let once = file.clone();
    assert_eq!(clear_metadata_from_png(&mut file), Ok(()));
    assert_eq!(file, once);
}

#[test]
fn clearing_refuses_a_damaged_file_and_leaves_it_alone() {
    let mut file = png_with_text();
    file[40] ^= 0x10;
    let damaged = file.clone();
    assert_eq!(clear_metadata_from_png(&mut file), Err(Error::ChecksumError));
    assert_eq!(file, damaged);
    let mut short = minimal_png()[..40].to_vec();
    assert_eq!(clear_metadata_from_png(&mut short), Err(Error::TruncatedData));
    let mut other = vec![0u8; 50];
    assert_eq!(clear_metadata_from_png(&mut other), Err(Error::InvalidSignature));
}

#[test]
fn stored_metadata_is_what_the_first_text_chunk_holds_behind_the_marker() {
    assert_eq!(read_stored_metadata(&minimal_png()), Ok(vec![]));
    assert_eq!(read_stored_metadata(&png_with_text()), Ok(vec![9, 8, 7, 6, 5]));
    let mut two = PNG_SIGNATURE.to_vec();
    two.extend_from_slice(&IHDR_CHUNK);
    two.extend_from_slice(&chunk(b"zTXt", &text_payload(&[1, 1])));
    two.extend_from_slice(&chunk(b"zTXt", &text_payload(&[2, 2])));
    two.extend_from_slice(&IEND_CHUNK);
    assert_eq!(read_stored_metadata(&two), Ok(vec![1, 1]));
    let mut short = PNG_SIGNATURE.to_vec();
    short.extend_from_slice(&chunk(b"zTXt", b"Raw profile"));
    short.extend_from_slice(&IEND_CHUNK);
    assert_eq!(read_stored_metadata(&short), Ok(vec![]));
    let mut bare = PNG_SIGNATURE.to_vec();
    bare.extend_from_slice(&chunk(b"zTXt", &text_payload(&[])));
    bare.extend_from_slice(&IEND_CHUNK);
    assert_eq!(read_stored_metadata(&bare), Ok(vec![]));
    let mut behind = minimal_png();
    behind.extend_from_slice(&chunk(b"zTXt", &text_payload(&[3])));
    assert_eq!(read_stored_metadata(&behind), Ok(vec![]));
    assert_eq!(read_stored_metadata(&minimal_png()[..44]), Err(Error::TruncatedData));
    assert_eq!(read_stored_metadata(b"no png"), Err(Error::InvalidSignature));
}

#[test]
fn cleared_file_stores_nothing() {
    let mut file = png_with_text();
    assert_eq!(clear_metadata_from_png(&mut file), Ok(()));
    assert_eq!(read_stored_metadata(&file), Ok(vec![]));
}

#[test]
fn writing_puts_a_text_chunk_behind_the_header_chunk() {
    let mut file = minimal_png();
    let chunks = parse_png(&file).unwrap();
    assert!(chunks.iter().all(|c| c.name != tag(b"zTXt")));
    assert_eq!(read_stored_metadata(&file), Ok(vec![]));
    assert_eq!(write_metadata_to_png(&mut file, &vec![0x01, 0x02, 0x03]), Ok(()));
    let stored = read_stored_metadata(&file).unwrap();
    assert_eq!(stored, deflate::deflate_bytes_zlib(&[0x01, 0x02, 0x03]));
    assert_eq!(
        miniz_oxide::inflate::decompress_to_vec_zlib(&stored).unwrap(),
        vec![0x01, 0x02, 0x03]
    );
    let chunks = parse_png(&file).unwrap();
    assert_eq!(chunks.len(), 3);
    assert_eq!(chunks[0], descriptor(b"IHDR", 13));
    assert_eq!(chunks[1].name, tag(b"zTXt"));
    assert_eq!(chunks[2], descriptor(b"IEND", 0));
    assert_eq!(file[..33], minimal_png()[..33]);
    assert_eq!(file[41..64], RAW_PROFILE_TYPE_EXIF[..]);
    let end = 41 + chunks[1].length as usize + 4;
    assert_eq!(file[end..], IEND_CHUNK[..]);
    assert_eq!(file.len(), 45 + 12 + chunks[1].length as usize);
}

#[test]
fn written_metadata_decompresses_to_what_was_written() {
    let blob: Vec<u8> = (0..2000u32).map(|i| (i % 7) as u8).collect();
    let mut file = minimal_png();
    assert_eq!(write_metadata_to_png(&mut file, &blob), Ok(()));
    let chunks = parse_png(&file).unwrap();
    let compressed = &file[64..41 + chunks[1].length as usize];
    assert_ne!(compressed, &blob[..]);
    assert_eq!(miniz_oxide::inflate::decompress_to_vec_zlib(compressed).unwrap(), blob);
}

#[test]
fn written_chunk_is_the_one_built_from_the_compressed_blob() {
    let blob = vec![0x01, 0x02, 0x03];
    let mut file = minimal_png();
    assert_eq!(write_metadata_to_png(&mut file, &blob), Ok(()));
    let mut expected = minimal_png()[..33].to_vec();
    expected.extend_from_slice(&chunk(b"zTXt", &text_payload(&deflate::deflate_bytes_zlib(&blob))));
    expected.extend_from_slice(&IEND_CHUNK);
    assert_eq!(file, expected);
}

#[test]
fn writing_replaces_metadata_that_was_there() {
    let mut file = png_with_text();
    assert_eq!(write_metadata_to_png(&mut file, &vec![4, 5, 6, 7]), Ok(()));
    let chunks = parse_png(&file).unwrap();
    assert_eq!(chunks.len(), 4);
    assert_eq!(chunks[0], descriptor(b"IHDR", 13));
    assert_eq!(chunks[1].name, tag(b"zTXt"));
    assert_eq!(chunks[2], descriptor(b"tEXt", 7));
    assert_eq!(chunks[3], descriptor(b"IEND", 0));
    let compressed = &file[64..41 + chunks[1].length as usize];
    assert_eq!(
        miniz_oxide::inflate::decompress_to_vec_zlib(compressed).unwrap(),
        vec![4, 5, 6, 7]
    );
}

#[test]
fn writing_refuses_a_file_that_does_not_parse() {
    let mut file = minimal_png();
    file[44] ^= 1;
    let damaged = file.clone();
    assert_eq!(write_metadata_to_png(&mut file, &vec![1]), Err(Error::ChecksumError));
    assert_eq!(file, damaged);
    assert_eq!(insert_exif_chunk(&mut file, &[1, 2]), Err(Error::ChecksumError));
    assert_eq!(file, damaged);
}

#[test]
fn inserting_takes_the_blob_as_it_is() {
    let mut file = minimal_png();
    assert_eq!(insert_exif_chunk(&mut file, &[0xaa, 0xbb]), Ok(()));
    let mut expected = minimal_png()[..33].to_vec();
    expected.extend_from_slice(&chunk(b"zTXt", &text_payload(&[0xaa, 0xbb])));
    expected.extend_from_slice(&IEND_CHUNK);
    assert_eq!(file, expected);
    assert_eq!(file[33..37], [0, 0, 0, 25]);
}

#[test]
fn chunk_put_behind_iend_is_not_part_of_the_stream() {
    let mut file = PNG_SIGNATURE.to_vec();
    file.extend_from_slice(&IEND_CHUNK);
    assert_eq!(insert_exif_chunk(&mut file, &[1]), Ok(()));
    assert_eq!(file.len(), 20 + 36);
    assert_eq!(parse_png(&file).unwrap(), vec![descriptor(b"IEND", 0)]);
}
