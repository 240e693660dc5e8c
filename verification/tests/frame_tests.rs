use scheduler::frame::{length_header, open_frame, read_length, seal_frame};

#[test]
fn length_header_is_big_endian() {
    assert_eq!(length_header(0x0102_0304), vec![1, 2, 3, 4]);
    assert_eq!(length_header(45), vec![0, 0, 0, 45]);
    assert_eq!(length_header(u32::MAX), vec![255, 255, 255, 255]);
}

#[test]
fn read_length_reads_big_endian() {
    assert_eq!(read_length(&[0, 0, 1, 0]), Some(256));
    assert_eq!(read_length(&[0x12, 0x34, 0x56, 0x78, 0xff]), Some(0x1234_5678));
    assert_eq!(read_length(&[1, 2, 3]), None);
}

#[test]
fn length_roundtrip() {
    for n in [0u32, 1, 12, 300, 65_536, 0xdead_beef, u32::MAX] {
        assert_eq!(read_length(&length_header(n)), Some(n));
    }
}

#[test]
fn seal_frame_truncates_and_appends_tag() {
    let tag = [9u8; 12];
    let (announced, body) = seal_frame(&[1, 2, 3, 4, 5], 3, &tag);
    assert_eq!(announced, 15);
    let mut expected = vec![1, 2, 3];
    expected.extend_from_slice(&tag);
    assert_eq!(body, expected);
    let (announced, body) = seal_frame(&[1, 2], 5, &tag);
    assert_eq!(announced, 17);
    assert_eq!(body.len(), 14);
}

#[test]
fn open_frame_splits_tag() {
    let msg: Vec<u8> = (0u8..20).collect();
    let (body, tag) = open_frame(&msg).unwrap();
    assert_eq!(body, (0u8..8).collect::<Vec<u8>>());
    assert_eq!(tag, (8u8..20).collect::<Vec<u8>>());
    let (body, tag) = open_frame(&[7u8; 12]).unwrap();
    assert!(body.is_empty());
    assert_eq!(tag, vec![7u8; 12]);
    assert!(open_frame(&[1u8; 11]).is_none());
}

#[test]
fn seal_then_open() {
    let tag: [u8; 12] = [1, 2, 3, 4, 5, 6, 7, 8, 9, 10, 11, 12];
    let cipher = [40u8, 41, 42, 43];
    let (announced, body) = seal_frame(&cipher, 4, &tag);
    assert_eq!(announced as usize, body.len());
    let (c, t) = open_frame(&body).unwrap();
    assert_eq!(c, cipher.to_vec());
    assert_eq!(t, tag.to_vec());
}
