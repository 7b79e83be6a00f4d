use exif_container::chunk::{ChunkDescriptor, FourCC};
use exif_container::error::Error;
use exif_container::webp::{
    check_exif_in_file, check_signature, clear_metadata as clear_webp_metadata,
    convert_to_extended_format, encode_metadata_webp, exif_insert_pos, find_exif_chunk,
    get_next_chunk, get_next_chunk_descriptor, goes_before_exif, insert_exif_chunk, parse_webp,
    read_metadata, set_exif_flag, write_metadata, EXIF_HEADER,
};

fn tag(name: &[u8; 4]) -> FourCC {
    FourCC::new(*name)
}

fn descriptor(name: &[u8; 4], length: u32) -> ChunkDescriptor {
    ChunkDescriptor { name: tag(name), length }
}

fn chunk(name: &[u8; 4], payload: &[u8]) -> Vec<u8> {
    let mut out = name.to_vec();
    out.extend_from_slice(&(payload.len() as u32).to_le_bytes());
    out.extend_from_slice(payload);
    if payload.len() % 2 == 1 {
        out.push(0);
    }
    out
}

fn webp(chunks: &[Vec<u8>]) -> Vec<u8> {
    let body: Vec<u8> = chunks.concat();
    let mut out = b"RIFF".to_vec();
    out.extend_from_slice(&(body.len() as u32 + 4).to_le_bytes());
    out.extend_from_slice(b"WEBP");
    out.extend_from_slice(&body);
    out
}

fn vp8x(flags: u8) -> Vec<u8> {
    chunk(b"VP8X", &[flags, 0, 0, 0, 9, 0, 0, 4, 0, 0])
}

fn image() -> Vec<u8> {
    chunk(b"VP8 ", &[0x30, 0x01, 0x00, 0x9d, 0x01, 0x2a])
}

fn with_prefix(blob: &[u8]) -> Vec<u8> {
    let mut out = EXIF_HEADER.to_vec();
    out.extend_from_slice(blob);
    out
}

fn extended_with_exif(blob: &[u8]) -> Vec<u8> {
    webp(&[vp8x(0x08), image(), chunk(b"EXIF", blob), chunk(b"XMP ", b"<x/>")])
}

fn size_field(file: &[u8]) -> u32 {
    u32::from_le_bytes([file[4], file[5], file[6], file[7]])
}

#[test]
fn header_is_accepted_and_points_behind_itself() {
    assert_eq!(check_signature(&webp(&[image()])), Ok(12));
    assert_eq!(check_signature(&webp(&[])), Ok(12));
}

#[test]
fn every_failed_header_check_is_invalid_data() {
    let good = webp(&[image()]);
    let mut file = good.clone();
    file[0] = b'r';
    assert_eq!(check_signature(&file), Err(Error::InvalidData));
    let mut file = good.clone();
    file[4] += 1;
    assert_eq!(check_signature(&file), Err(Error::InvalidData));
    let mut file = good.clone();
    file[11] = b'p';
    assert_eq!(parse_webp(&file), Err(Error::InvalidData));
    let mut file = good.clone();
    file.push(0);
    assert_eq!(parse_webp(&file), Err(Error::InvalidData));
    assert_eq!(parse_webp(b"RIFX\x04\x00\x00\x00WEBP"), Err(Error::InvalidData));
    assert_eq!(parse_webp(b""), Err(Error::InvalidData));
    assert_eq!(parse_webp(b"RIF"), Err(Error::InvalidData));
    assert_eq!(parse_webp(b"RIFF\x00\x00"), Err(Error::InvalidData));
    assert_eq!(parse_webp(b"RIFF\x00\x00\x00\x00"), Err(Error::InvalidData));
    assert_eq!(parse_webp(b"RIFF\x03\x00\x00\x00WEB"), Err(Error::InvalidData));
}

#[test]
fn a_tag_that_is_no_text_is_invalid_data() {
    let bad = webp(&[image(), chunk(&[0xff, b'a', b'b', b'c'], &[1, 2])]);
    assert_eq!(parse_webp(&bad), Err(Error::InvalidData));
    assert_eq!(get_next_chunk_descriptor(&bad, 26), Err(Error::InvalidData));
    match get_next_chunk(&bad, 26) {
        Err(e) => assert_eq!(e, Error::InvalidData),
        Ok(_) => panic!("the tag is no text"),
    }
    assert_eq!(parse_webp(&webp(&[chunk(&[b'a', b'b', b'c', 0xc3], &[])])), Err(Error::InvalidData));
    assert_eq!(parse_webp(&webp(&[chunk(&[0xc0, 0x80, b'a', b'b'], &[])])), Err(Error::InvalidData));
    assert_eq!(parse_webp(&webp(&[chunk(&[0xed, 0xa0, 0x80, b'a'], &[])])), Err(Error::InvalidData));
    assert_eq!(parse_webp(&webp(&[chunk(&[0x80, b'a', b'b', b'c'], &[])])), Err(Error::InvalidData));
    assert_eq!(
        parse_webp(&webp(&[chunk(&[0xc3, 0xa9, b'a', b'b'], &[7])])).unwrap(),
        vec![descriptor(&[0xc3, 0xa9, b'a', b'b'], 2)]
    );
    assert_eq!(
        parse_webp(&webp(&[chunk(&[0xf0, 0x9f, 0x98, 0x80], &[])])).unwrap(),
        vec![descriptor(&[0xf0, 0x9f, 0x98, 0x80], 0)]
    );
    assert_eq!(
        parse_webp(&webp(&[chunk(&[0, 0x7f, b' ', b'~'], &[])])).unwrap(),
        vec![descriptor(&[0, 0x7f, b' ', b'~'], 0)]
    );
    let mut long = chunk(&[0xff, b'a', b'b', b'c'], &[1, 2]);
    long[4] = 9;
    assert_eq!(parse_webp(&webp(&[long])), Err(Error::TruncatedData));
    let mut file = webp(&[vp8x(0x08), chunk(&[0xfe, 0xfe, 0xfe, 0xfe], &[])]);
    let before = file.clone();
    assert_eq!(clear_webp_metadata(&mut file), Err(Error::InvalidData));
    assert_eq!(write_metadata(&mut file, &vec![1]), Err(Error::InvalidData));
    assert_eq!(read_metadata(&file), Err(Error::InvalidData));
    assert_eq!(file, before);
}

#[test]
fn parsing_lists_every_chunk_with_its_padded_length() {
    let file = webp(&[vp8x(0x08), image(), chunk(b"EXIF", &[1, 2, 3, 4, 5])]);
    assert_eq!(
        parse_webp(&file).unwrap(),
        vec![descriptor(b"VP8X", 10), descriptor(b"VP8 ", 6), descriptor(b"EXIF", 6)]
    );
    assert_eq!(parse_webp(&webp(&[])).unwrap(), vec![]);
}

#[test]
fn a_chunk_longer_than_the_file_is_truncated() {
    let mut body = chunk(b"VP8 ", &[1, 2, 3, 4]);
    body[4] = 6;
    assert_eq!(parse_webp(&webp(&[body])), Err(Error::TruncatedData));
    let mut odd = chunk(b"VP8 ", &[1, 2, 3, 4]);
    odd[4] = 3;
    assert_eq!(
        parse_webp(&webp(&[odd])).unwrap(),
        vec![descriptor(b"VP8 ", 4)]
    );
    let mut odd = chunk(b"VP8 ", &[1, 2, 3, 4]);
    odd[4] = 5;
    assert_eq!(parse_webp(&webp(&[odd])), Err(Error::TruncatedData));
}

#[test]
fn a_partial_chunk_header_is_truncated() {
    let file = webp(&[image(), vec![b'E', b'X', b'I']]);
    assert_eq!(parse_webp(&file), Err(Error::TruncatedData));
    assert_eq!(get_next_chunk_descriptor(&file, 26), Err(Error::TruncatedData));
}

#[test]
fn the_end_of_the_file_is_where_no_chunk_starts() {
    let file = webp(&[image()]);
    assert_eq!(get_next_chunk_descriptor(&file, 12), Ok(descriptor(b"VP8 ", 6)));
    assert_eq!(get_next_chunk_descriptor(&file, 26), Err(Error::UnexpectedEof));
    assert_eq!(get_next_chunk_descriptor(&file, 400), Err(Error::UnexpectedEof));
    match get_next_chunk(&file, 26) {
        Err(e) => assert_eq!(e, Error::UnexpectedEof),
        Ok(_) => panic!("no chunk starts at the end"),
    }
}

#[test]
fn a_chunk_is_read_with_its_padding_byte() {
    let file = webp(&[vp8x(0), chunk(b"EXIF", &[1, 2, 3, 4, 5])]);
    let read = get_next_chunk(&file, 30).unwrap();
    assert_eq!(read.descriptor, descriptor(b"EXIF", 6));
    assert_eq!(read.payload, vec![1, 2, 3, 4, 5, 0]);
    let first = get_next_chunk(&file, 12).unwrap();
    assert_eq!(first.descriptor, descriptor(b"VP8X", 10));
    assert_eq!(first.payload, vec![0, 0, 0, 0, 9, 0, 0, 4, 0, 0]);
}

#[test]
fn metadata_is_read_behind_the_exif_prefix() {
    let file = extended_with_exif(&[0x4d, 0x4d, 0x00, 0x2a]);
    assert_eq!(read_metadata(&file), Ok(with_prefix(&[0x4d, 0x4d, 0x00, 0x2a])));
    assert_eq!(
        read_metadata(&file).unwrap(),
        vec![0x45, 0x78, 0x69, 0x66, 0x00, 0x00, 0x4d, 0x4d, 0x00, 0x2a]
    );
}

#[test]
fn the_first_of_several_exif_chunks_is_read() {
    let file = webp(&[vp8x(0x08), chunk(b"exif", &[7, 7]), chunk(b"EXIF", &[8, 8])]);
    assert_eq!(read_metadata(&file), Ok(with_prefix(&[7, 7])));
}

#[test]
fn an_announced_but_missing_chunk_is_no_metadata() {
    let file = webp(&[vp8x(0x08), image()]);
    assert_eq!(read_metadata(&file), Err(Error::NoMetadata));
    assert_eq!(read_metadata(&webp(&[vp8x(0x08)])), Err(Error::NoMetadata));
    let chunks = parse_webp(&file).unwrap();
    assert_eq!(find_exif_chunk(&file, &chunks), Err(Error::NoMetadata));
}

#[test]
fn simple_format_has_no_metadata_to_read_and_none_to_clear() {
    let mut file = webp(&[image()]);
    let before = file.clone();
    assert_eq!(read_metadata(&file), Err(Error::UnexpectedChunkOrder(tag(b"VP8 "))));
    match check_exif_in_file(&file) {
        Err(e) => assert_eq!(e, Error::UnexpectedChunkOrder(tag(b"VP8 "))),
        Ok(_) => panic!("the first chunk is not VP8X"),
    }
    assert_eq!(clear_webp_metadata(&mut file), Ok(()));
    assert_eq!(file, before);
    let small = webp(&[chunk(b"VP8 ", &[0, 0])]);
    assert_eq!(small.len(), 22);
    assert_eq!(read_metadata(&small), Err(Error::UnexpectedChunkOrder(tag(b"VP8 "))));
    let mut lossless = webp(&[chunk(b"VP8L", &[0x2f, 0, 0, 0, 0])]);
    let before = lossless.clone();
    assert_eq!(read_metadata(&lossless), Err(Error::UnexpectedChunkOrder(tag(b"VP8L"))));
    assert_eq!(clear_webp_metadata(&mut lossless), Ok(()));
    assert_eq!(lossless, before);
}

#[test]
fn unset_flag_means_no_metadata() {
    let mut file = webp(&[vp8x(0x10), image(), chunk(b"EXIF", &[1, 2])]);
    let before = file.clone();
    assert_eq!(read_metadata(&file), Err(Error::NoMetadata));
    match check_exif_in_file(&file) {
        Err(e) => assert_eq!(e, Error::NoMetadata),
        Ok(_) => panic!("the flag is not set"),
    }
    assert_eq!(clear_webp_metadata(&mut file), Ok(()));
    assert_eq!(file, before);
}

#[test]
fn odd_payload_is_removed_with_its_padding_byte() {
    let mut file = webp(&[vp8x(0x08), image(), chunk(b"EXIF", &[1, 2, 3, 4, 5]), chunk(b"XMP ", b"<x/>")]);
    let before = file.clone();
    assert_eq!(parse_webp(&file).unwrap()[2], descriptor(b"EXIF", 6));
    assert_eq!(read_metadata(&file), Ok(with_prefix(&[1, 2, 3, 4, 5])));
    assert_eq!(clear_webp_metadata(&mut file), Ok(()));
    assert_eq!(file.len(), before.len() - 14);
    assert_eq!(size_field(&file), size_field(&before) - 14);
    assert_eq!(file, webp(&[vp8x(0x00), image(), chunk(b"XMP ", b"<x/>")]));
}

#[test]
fn clear_metadata() {
    let mut file = extended_with_exif(&[0x49, 0x49, 0x2a, 0x00, 0x08, 0x00, 0x00, 0x00]);
    assert_eq!(clear_webp_metadata(&mut file), Ok(()));
    assert_eq!(file, webp(&[vp8x(0x00), image(), chunk(b"XMP ", b"<x/>")]));
    assert_eq!(read_metadata(&file), Err(Error::NoMetadata));
}

#[test]
fn clearing_removes_every_exif_chunk_and_keeps_other_flags() {
    let mut file = webp(&[
        vp8x(0x2c),
        chunk(b"EXIF", &[1]),
        chunk(b"ICCP", &[3, 3, 3]),
        chunk(b"Exif", &[2, 2]),
        image(),
        chunk(b"EXIF", &[]),
    ]);
    assert_eq!(clear_webp_metadata(&mut file), Ok(()));
    assert_eq!(file, webp(&[vp8x(0x24), chunk(b"ICCP", &[3, 3, 3]), image()]));
    assert_eq!(size_field(&file) as usize, file.len() - 8);
}

#[test]
fn clearing_a_webp_file_twice_is_clearing_once() {
    let mut file = extended_with_exif(&[1, 2, 3]);
    assert_eq!(clear_webp_metadata(&mut file), Ok(()));
    let once = file.clone();
    assert_eq!(clear_webp_metadata(&mut file), Ok(()));
    assert_eq!(file, once);
}

#[test]
fn clearing_refuses_what_is_no_webp_file() {
    let mut file = webp(&[chunk(b"ALPH", &[1, 2]), image()]);
    let before = file.clone();
    assert_eq!(clear_webp_metadata(&mut file), Err(Error::UnexpectedChunkOrder(tag(b"ALPH"))));
    assert_eq!(file, before);
    let mut empty = webp(&[]);
    assert_eq!(clear_webp_metadata(&mut empty), Err(Error::UnexpectedEof));
    assert_eq!(read_metadata(&empty), Err(Error::UnexpectedEof));
    let mut cut = webp(&[vp8x(0x08), image()]);
    cut.pop();
    assert_eq!(clear_webp_metadata(&mut cut), Err(Error::InvalidData));
    let mut short = webp(&[chunk(b"VP8X", &[0x08, 0]), image()]);
    let before = short.clone();
    assert_eq!(clear_webp_metadata(&mut short), Err(Error::TruncatedData));
    assert_eq!(short, before);
    let mut other = b"RIFX\x04\x00\x00\x00WEBP".to_vec();
    assert_eq!(clear_webp_metadata(&mut other), Err(Error::InvalidData));
}

#[test]
fn the_first_chunk_is_compared_without_regard_to_case() {
    let file = webp(&[chunk(b"vp8x", &[0x08, 0, 0, 0]), chunk(b"eXiF", &[5, 6])]);
    assert_eq!(read_metadata(&file), Ok(with_prefix(&[5, 6])));
    let lower = webp(&[chunk(b"vp8l", &[0x2f, 0])]);
    assert_eq!(read_metadata(&lower), Err(Error::UnexpectedChunkOrder(tag(b"vp8l"))));
    let mut lower = lower;
    assert_eq!(clear_webp_metadata(&mut lower), Err(Error::UnexpectedChunkOrder(tag(b"vp8l"))));
}

#[test]
fn the_exif_chunk_is_built_with_length_and_padding() {
    assert_eq!(
        encode_metadata_webp(&vec![1, 2, 3]),
        vec![0x45, 0x58, 0x49, 0x46, 3, 0, 0, 0, 1, 2, 3, 0]
    );
    assert_eq!(
        encode_metadata_webp(&vec![1, 2, 3, 4]),
        vec![0x45, 0x58, 0x49, 0x46, 4, 0, 0, 0, 1, 2, 3, 4]
    );
    assert_eq!(encode_metadata_webp(&vec![]), vec![0x45, 0x58, 0x49, 0x46, 0, 0, 0, 0]);
    let long = vec![0xabu8; 0x1_02_03];
    let encoded = encode_metadata_webp(&long);
    assert_eq!(encoded[4..8], [0x03, 0x02, 0x01, 0x00]);
    assert_eq!(encoded.len(), 8 + 0x1_02_03 + 1);
}

#[test]
fn chunks_that_go_before_the_exif_chunk() {
    assert!(goes_before_exif(&tag(b"VP8X")));
    assert!(goes_before_exif(&tag(b"VP8 ")));
    assert!(goes_before_exif(&tag(b"VP8L")));
    assert!(goes_before_exif(&tag(b"ICCP")));
    assert!(goes_before_exif(&tag(b"anim")));
    assert!(!goes_before_exif(&tag(b"ALPH")));
    assert!(!goes_before_exif(&tag(b"EXIF")));
    assert!(!goes_before_exif(&tag(b"XMP ")));
    assert!(!goes_before_exif(&tag(b"ANMF")));
}

#[test]
fn the_new_chunk_goes_in_front_of_the_first_chunk_that_follows_it() {
    let file = webp(&[vp8x(0), chunk(b"ICCP", &[1, 2, 3]), chunk(b"ALPH", &[4]), image()]);
    assert_eq!(exif_insert_pos(&file), Ok(12 + 18 + 12));
    let all = webp(&[vp8x(0), image()]);
    assert_eq!(exif_insert_pos(&all), Ok(all.len()));
    assert_eq!(exif_insert_pos(&webp(&[])), Ok(12));
    assert_eq!(exif_insert_pos(&webp(&[chunk(b"ALPH", &[4]), image()])), Ok(12));
    assert_eq!(
        exif_insert_pos(&webp(&[vp8x(0), vec![b'I', b'C']])),
        Err(Error::TruncatedData)
    );
    let mut long = chunk(b"ICCP", &[1, 2]);
    long[4] = 200;
    assert_eq!(exif_insert_pos(&webp(&[vp8x(0), long])), Err(Error::TruncatedData));
    let mut long = chunk(b"ALPH", &[1, 2]);
    long[4] = 200;
    assert_eq!(exif_insert_pos(&webp(&[vp8x(0), long])), Err(Error::TruncatedData));
}

#[test]
fn writing_then_reading_gives_the_blob_back() {
    let blob = vec![0x4d, 0x4d, 0x00, 0x2a, 0x00, 0x00, 0x00, 0x08];
    let mut file = webp(&[vp8x(0), chunk(b"ICCP", &[1, 2, 3]), chunk(b"ALPH", &[4]), image()]);
    assert_eq!(write_metadata(&mut file, &blob), Ok(()));
    assert_eq!(read_metadata(&file), Ok(with_prefix(&blob)));
    assert_eq!(
        file,
        webp(&[
            vp8x(0x08),
            chunk(b"ICCP", &[1, 2, 3]),
            chunk(b"EXIF", &blob),
            chunk(b"ALPH", &[4]),
            image()
        ])
    );
}

#[test]
fn a_blob_of_odd_length_comes_back_without_its_padding_byte() {
    let mut file = webp(&[vp8x(0x10), image()]);
    assert_eq!(write_metadata(&mut file, &vec![1, 2, 3]), Ok(()));
    assert_eq!(read_metadata(&file), Ok(with_prefix(&[1, 2, 3])));
    assert_eq!(read_metadata(&file).unwrap().len(), 6 + 3);
    let mut one = webp(&[vp8x(0)]);
    assert_eq!(write_metadata(&mut one, &vec![0xee]), Ok(()));
    assert_eq!(read_metadata(&one), Ok(with_prefix(&[0xee])));
    let mut none = webp(&[vp8x(0)]);
    assert_eq!(write_metadata(&mut none, &vec![]), Ok(()));
    assert_eq!(read_metadata(&none), Ok(with_prefix(&[])));
    assert_eq!(file, webp(&[vp8x(0x18), image(), chunk(b"EXIF", &[1, 2, 3])]));
}

#[test]
fn the_size_field_follows_the_file() {
    let mut file = webp(&[vp8x(0), image()]);
    let before = file.len();
    assert_eq!(write_metadata(&mut file, &vec![0u8; 301]), Ok(()));
    assert_eq!(file.len(), before + 8 + 302);
    assert_eq!(size_field(&file) as usize, file.len() - 8);
    assert_eq!(file[4..8], [0x5a, 0x01, 0x00, 0x00]);
    assert_eq!(
        parse_webp(&file).unwrap(),
        vec![descriptor(b"VP8X", 10), descriptor(b"VP8 ", 6), descriptor(b"EXIF", 302)]
    );
}

#[test]
fn writing_replaces_every_exif_chunk_that_was_there() {
    let mut file = webp(&[vp8x(0x08), chunk(b"EXIF", &[9, 9]), image(), chunk(b"EXIF", &[8])]);
    assert_eq!(write_metadata(&mut file, &vec![1, 2]), Ok(()));
    assert_eq!(file, webp(&[vp8x(0x08), image(), chunk(b"EXIF", &[1, 2])]));
    assert_eq!(read_metadata(&file), Ok(with_prefix(&[1, 2])));
}

#[test]
fn writing_to_a_simple_file_is_not_implemented() {
    let mut file = webp(&[image()]);
    assert_eq!(write_metadata(&mut file, &vec![1, 2]), Err(Error::NotImplemented));
    assert_eq!(file, webp(&[image(), chunk(b"EXIF", &[1, 2])]));
    assert_eq!(size_field(&file) as usize, file.len() - 8);
    let mut lossless = webp(&[chunk(b"VP8L", &[0x2f, 1, 2, 3, 4])]);
    assert_eq!(write_metadata(&mut lossless, &vec![]), Err(Error::NotImplemented));
    assert_eq!(parse_webp(&lossless).unwrap().len(), 2);
}

#[test]
fn writing_refuses_what_clearing_refuses() {
    let mut file = webp(&[chunk(b"ALPH", &[1, 2]), image()]);
    let before = file.clone();
    assert_eq!(
        write_metadata(&mut file, &vec![1]),
        Err(Error::UnexpectedChunkOrder(tag(b"ALPH")))
    );
    assert_eq!(file, before);
    let mut cut = webp(&[vp8x(0), image()]);
    cut.truncate(30);
    assert_eq!(write_metadata(&mut cut, &vec![1]), Err(Error::InvalidData));
    assert_eq!(cut.len(), 30);
}

#[test]
fn inserting_puts_the_chunk_in_and_sets_the_size() {
    let mut file = webp(&[vp8x(0), chunk(b"ALPH", &[4])]);
    assert_eq!(insert_exif_chunk(&mut file, &vec![6, 6, 6]), Ok(()));
    assert_eq!(file, webp(&[vp8x(0), chunk(b"EXIF", &[6, 6, 6]), chunk(b"ALPH", &[4])]));
    let mut empty = webp(&[]);
    assert_eq!(insert_exif_chunk(&mut empty, &vec![]), Ok(()));
    assert_eq!(empty, webp(&[chunk(b"EXIF", &[])]));
}

#[test]
fn inserting_refuses_a_broken_file_and_leaves_it_alone() {
    let mut file = webp(&[vp8x(0)]);
    file[6] = 1;
    let before = file.clone();
    assert_eq!(insert_exif_chunk(&mut file, &vec![1]), Err(Error::InvalidData));
    assert_eq!(file, before);
    let mut cut = webp(&[vp8x(0), vec![b'I', b'C', b'C']]);
    let before = cut.clone();
    assert_eq!(insert_exif_chunk(&mut cut, &vec![1]), Err(Error::TruncatedData));
    assert_eq!(cut, before);
    let mut short = b"RIFF".to_vec();
    assert_eq!(insert_exif_chunk(&mut short, &vec![1]), Err(Error::InvalidData));
    let mut other = b"JUNK\x04\x00\x00\x00WEBP".to_vec();
    assert_eq!(insert_exif_chunk(&mut other, &vec![1]), Err(Error::InvalidData));
    let mut binary = webp(&[vp8x(0), chunk(&[0xff, 0xff, 0xff, 0xff], &[])]);
    let before = binary.clone();
    assert_eq!(insert_exif_chunk(&mut binary, &vec![1]), Err(Error::InvalidData));
    assert_eq!(binary, before);
}

#[test]
fn the_flag_is_one_bit_of_the_byte_at_offset_20() {
    let mut file = webp(&[vp8x(0x30), image()]);
    assert_eq!(set_exif_flag(&mut file, true), Ok(()));
    assert_eq!(file, webp(&[vp8x(0x38), image()]));
    assert_eq!(set_exif_flag(&mut file, true), Ok(()));
    assert_eq!(file[20], 0x38);
    assert_eq!(set_exif_flag(&mut file, false), Ok(()));
    assert_eq!(file, webp(&[vp8x(0x30), image()]));
    assert_eq!(set_exif_flag(&mut file, false), Ok(()));
    assert_eq!(file[20], 0x30);
    let mut all = webp(&[vp8x(0xff)]);
    assert_eq!(set_exif_flag(&mut all, false), Ok(()));
    assert_eq!(all[20], 0xf7);
}

#[test]
fn the_flag_needs_a_vp8x_chunk_with_room_for_it() {
    let mut simple = webp(&[image()]);
    assert_eq!(set_exif_flag(&mut simple, true), Err(Error::NotImplemented));
    assert_eq!(simple, webp(&[image()]));
    let mut other = webp(&[chunk(b"ALPH", &[1, 2, 3, 4])]);
    assert_eq!(set_exif_flag(&mut other, true), Err(Error::UnexpectedChunkOrder(tag(b"ALPH"))));
    let mut empty = webp(&[]);
    assert_eq!(set_exif_flag(&mut empty, false), Err(Error::UnexpectedEof));
    let mut short = webp(&[chunk(b"VP8X", &[0, 0]), image()]);
    assert_eq!(set_exif_flag(&mut short, true), Err(Error::TruncatedData));
    assert_eq!(short, webp(&[chunk(b"VP8X", &[0, 0]), image()]));
    let mut broken = webp(&[vp8x(0)]);
    broken[5] = 9;
    assert_eq!(set_exif_flag(&mut broken, true), Err(Error::InvalidData));
}

#[test]
fn conversion_to_the_extended_format_always_fails() {
    assert_eq!(convert_to_extended_format(&webp(&[image()])), Err(Error::NotImplemented));
    assert_eq!(
        convert_to_extended_format(&webp(&[chunk(b"VP8L", &[0x2f])])),
        Err(Error::NotImplemented)
    );
    assert_eq!(
        convert_to_extended_format(&webp(&[chunk(b"ALPH", &[1])])),
        Err(Error::UnexpectedChunkOrder(tag(b"ALPH")))
    );
    assert_eq!(convert_to_extended_format(&webp(&[])), Err(Error::UnexpectedEof));
    assert_eq!(
        convert_to_extended_format(&webp(&[vec![b'V', b'P']])),
        Err(Error::TruncatedData)
    );
}

#[test]
fn a_list_that_does_not_fit_the_file_is_an_inconsistent_state() {
    let file = extended_with_exif(&[1, 2, 3, 4]);
    let chunks = parse_webp(&file).unwrap();
    assert_eq!(find_exif_chunk(&file, &chunks), Ok(with_prefix(&[1, 2, 3, 4])));
    let mut renamed = chunks.clone();
    renamed[1].name = tag(b"VP8L");
    assert_eq!(find_exif_chunk(&file, &renamed), Err(Error::InconsistentState));
    assert_eq!(find_exif_chunk(&file, &chunks[..2]), Err(Error::InconsistentState));
    assert_eq!(find_exif_chunk(&file, &[]), Err(Error::InconsistentState));
    let mut longer = chunks.clone();
    longer[1].length = 400;
    assert_eq!(find_exif_chunk(&file, &longer), Err(Error::TruncatedData));
    let mut too_long = chunks.clone();
    too_long[2].length = 400;
    assert_eq!(find_exif_chunk(&file, &too_long), Ok(with_prefix(&[1, 2, 3, 4])));
    let mut declared = file.clone();
    declared[44 + 4] = 200;
    assert_eq!(find_exif_chunk(&declared, &chunks), Err(Error::TruncatedData));
    declared[44 + 4] = 3;
    assert_eq!(find_exif_chunk(&declared, &chunks), Ok(with_prefix(&[1, 2, 3])));
    assert_eq!(find_exif_chunk(&file[..44], &chunks), Err(Error::TruncatedData));
    assert_eq!(find_exif_chunk(&file[..46], &chunks), Err(Error::TruncatedData));
    assert_eq!(find_exif_chunk(&file[..48], &chunks), Err(Error::TruncatedData));
    assert_eq!(find_exif_chunk(&file[..55], &chunks), Err(Error::TruncatedData));
    assert_eq!(find_exif_chunk(&file[..56], &chunks), Ok(with_prefix(&[1, 2, 3, 4])));
    assert_eq!(find_exif_chunk(&file[..44], &chunks[..2]), Err(Error::NoMetadata));
    let mut odd = chunks.clone();
    odd[1].length = 5;
    assert_eq!(find_exif_chunk(&file, &odd), Ok(with_prefix(&[1, 2, 3, 4])));
}
