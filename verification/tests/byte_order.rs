use exif_container::bytes::{push_range, push_u32_be, push_u32_le, read_u32_be, read_u32_le};
use exif_container::chunk::{ascii_lower, FourCC};

#[test]
fn numbers_are_read_in_either_byte_order() {
    let data = [0xff, 0x12, 0x34, 0x56, 0x78, 0x00];
    assert_eq!(read_u32_be(&data, 1), 0x1234_5678);
    assert_eq!(read_u32_le(&data, 1), 0x7856_3412);
    assert_eq!(read_u32_be(&data, 0), 0xff12_3456);
    assert_eq!(read_u32_le(&data, 2), 0x0078_5634);
    assert_eq!(read_u32_be(&[0xff; 4], 0), u32::MAX);
    assert_eq!(read_u32_le(&[0; 4], 0), 0);
}

#[test]
fn numbers_are_written_in_either_byte_order() {
    let mut out = vec![7u8];
    push_u32_be(&mut out, 0x0102_0304);
    push_u32_le(&mut out, 0x0102_0304);
    push_u32_be(&mut out, u32::MAX);
    push_u32_le(&mut out, 0);
    assert_eq!(out, vec![7, 1, 2, 3, 4, 4, 3, 2, 1, 255, 255, 255, 255, 0, 0, 0, 0]);
}

#[test]
fn a_range_is_copied_to_the_end() {
    let mut out = vec![1u8, 2];
    push_range(&mut out, &[10, 11, 12, 13], 1, 3);
    push_range(&mut out, &[10, 11, 12, 13], 2, 2);
    push_range(&mut out, &[10, 11, 12, 13], 0, 4);
    assert_eq!(out, vec![1, 2, 11, 12, 10, 11, 12, 13]);
}

#[test]
fn tags_are_four_bytes_in_file_order() {
    let tag = FourCC::new(*b"zTXt");
    assert_eq!(tag.to_bytes(), [0x7a, 0x54, 0x58, 0x74]);
    assert_eq!(FourCC::read(b"..IHDR.", 2), FourCC::new(*b"IHDR"));
    let mut out = Vec::new();
    tag.write(&mut out);
    assert_eq!(out, b"zTXt".to_vec());
    assert_ne!(FourCC::new(*b"VP8 "), FourCC::new(*b"VP8L"));
}

#[test]
fn tags_compare_without_case_only_in_ascii_letters() {
    assert!(FourCC::new(*b"VP8X").eq_ignore_ascii_case(&FourCC::new(*b"vp8x")));
    assert!(FourCC::new(*b"ExIf").eq_ignore_ascii_case(&FourCC::new(*b"eXiF")));
    assert!(!FourCC::new(*b"VP8 ").eq_ignore_ascii_case(&FourCC::new(*b"VP8\0")));
    assert!(!FourCC::new(*b"@[`{").eq_ignore_ascii_case(&FourCC::new(*b"`{@[")));
    assert_eq!(ascii_lower(b'A'), b'a');
    assert_eq!(ascii_lower(b'Z'), b'z');
    assert_eq!(ascii_lower(b'@'), b'@');
    assert_eq!(ascii_lower(b'['), b'[');
    assert_eq!(ascii_lower(b'q'), b'q');
    assert_eq!(ascii_lower(0xc4), 0xc4);
}

#[test]
fn tags_are_text_where_they_are_valid_utf8() {
    assert!(FourCC::new(*b"EXIF").is_text());
    assert!(FourCC::new(*b"VP8 ").is_text());
    assert!(FourCC::new([0, 0, 0, 0]).is_text());
    assert!(FourCC::new([0xc3, 0xa9, 0xc3, 0xa9]).is_text());
    assert!(FourCC::new([0xe2, 0x82, 0xac, b'x']).is_text());
    assert!(!FourCC::new([0xff, b'X', b'I', b'F']).is_text());
    assert!(!FourCC::new([b'E', b'X', b'I', 0x80]).is_text());
    assert!(!FourCC::new([0xe2, 0x82, b'a', b'b']).is_text());
    assert!(!FourCC::new([0xf4, 0x90, 0x80, 0x80]).is_text());
}
