//! The native FLAC comment-block reader, on hand-built bytes.

use deaftone::tag_reader::{
    is_flac_marker, parse_block_header, read_vorbis_comment, Error, VorbisCommentCustom,
};

#[test]
fn flac_marker() {
    assert!(is_flac_marker(b"fLaC"));
    assert!(!is_flac_marker(b"OggS"));
}

#[test]
fn block_header_fields() {
    let h = parse_block_header(&[0x84, 0x00, 0x00, 0x0A]);
    assert!(h.is_last);
    assert_eq!(h.block_type, 4);
    assert_eq!(h.length, 10);

    let h = parse_block_header(&[0x03, 0x01, 0x00, 0x00]);
    assert!(!h.is_last);
    assert_eq!(h.block_type, 3);
    assert_eq!(h.length, 65536);
}

#[test]
fn comment_splitting() {
    let (k, v) = read_vorbis_comment(b"TITLE=Some Song").unwrap();
    assert_eq!(k, "TITLE");
    assert_eq!(v, "Some Song");

    let (k, v) = read_vorbis_comment(b"a=b=c").unwrap();
    assert_eq!(k, "a");
    assert_eq!(v, "b");

    let (k, v) = read_vorbis_comment(b"EMPTY=").unwrap();
    assert_eq!(k, "EMPTY");
    assert_eq!(v, "");

    match read_vorbis_comment(b"no separator") {
        Err(Error::MalformedVorbisComment(t)) => assert_eq!(t, "no separator"),
        _ => panic!("expected a malformed-comment error"),
    }

    match read_vorbis_comment(&[0xFF, 0xFE, 0x3D]) {
        Err(Error::Utf8Error) => {},
        _ => panic!("expected an encoding error"),
    }
}

fn push_le(bytes: &mut Vec<u8>, v: u32) {
    bytes.push((v & 0xFF) as u8);
    bytes.push(((v >> 8) & 0xFF) as u8);
    bytes.push(((v >> 16) & 0xFF) as u8);
    bytes.push(((v >> 24) & 0xFF) as u8);
}

#[test]
fn comment_block_walk() {
    // vendor string, comment count, then two comments
    let mut bytes: Vec<u8> = Vec::new();
    push_le(&mut bytes, 4);
    bytes.extend_from_slice(b"test");
    push_le(&mut bytes, 2);
    push_le(&mut bytes, 7);
    bytes.extend_from_slice(b"TITLE=t");
    push_le(&mut bytes, 8);
    bytes.extend_from_slice(b"ARTIST=a");

    assert!(VorbisCommentCustom::header_in_bounds(&bytes));
    let mut cursor = VorbisCommentCustom::from_bytes("p.flac".to_string(), &bytes);
    assert_eq!(cursor.num_comments, 2);

    let mut seen: Vec<(String, String)> = Vec::new();
    while cursor.next(&bytes) {
        assert!(cursor.cur_in_bounds(&bytes));
        let (path, k, v) = cursor.cur(&bytes).unwrap().unwrap();
        assert_eq!(path, "p.flac");
        seen.push((k.to_string(), v.to_string()));
    }
    assert_eq!(
        seen,
        vec![("TITLE".to_string(), "t".to_string()), ("ARTIST".to_string(), "a".to_string())]
    );
}

#[test]
fn empty_cursor_yields_nothing() {
    let bytes: Vec<u8> = Vec::new();
    let mut cursor = VorbisCommentCustom::empty("p.flac".to_string());
    assert!(!cursor.next(&bytes));
}
