use shared::{Codec, CodecError, LineCodec};

fn transfer(from: &mut Codec, to: &mut LineCodec) {
    let bytes = from.take_outgoing();
    to.feed(&bytes);
}

#[test]
fn frame_has_big_endian_length_prefix() {
    let mut c = Codec::new();
    c.write_bytes(b"abc");
    assert_eq!(c.take_outgoing(), vec![0, 0, 0, 0, 0, 0, 0, 3, b'a', b'b', b'c']);
    assert!(c.take_outgoing().is_empty());
}

#[test]
fn long_frame_length_prefix() {
    let mut c = LineCodec::new();
    let payload = vec![9u8; 0x0102];
    c.write_bytes(&payload);
    let out = c.take_outgoing();
    assert_eq!(&out[..8], &[0, 0, 0, 0, 0, 0, 1, 2]);
    assert_eq!(&out[8..], &payload[..]);
}

#[test]
fn round_trip_frames() {
    let mut a = Codec::new();
    let mut b = LineCodec::new();
    let payloads: Vec<Vec<u8>> = vec![vec![], b"x".to_vec(), vec![0u8, 255, 7], vec![42u8; 1000]];
    for p in &payloads {
        a.write_bytes(p);
    }
    transfer(&mut a, &mut b);
    for p in &payloads {
        assert_eq!(b.needed(), 0);
        assert_eq!(&b.read_bytes().unwrap(), p);
    }
    assert_eq!(b.read_bytes(), Err(CodecError::Truncated));
}

#[test]
fn empty_frame_round_trip() {
    let mut a = Codec::new();
    a.write_bytes(b"");
    let bytes = a.take_outgoing();
    assert_eq!(bytes, vec![0u8; 8]);
    let mut b = Codec::new();
    b.feed(&bytes);
    assert_eq!(b.read_bytes().unwrap(), Vec::<u8>::new());
}

#[test]
fn bundled_frames_in_order() {
    let mut a = Codec::new();
    a.write_bundled_bytes(vec![&b"one"[..], &b""[..], &b"three"[..]]);
    let mut b = Codec::new();
    b.feed(&a.take_outgoing());
    assert_eq!(b.read_bytes().unwrap(), b"one".to_vec());
    assert_eq!(b.read_bytes().unwrap(), Vec::<u8>::new());
    assert_eq!(b.read_bytes().unwrap(), b"three".to_vec());
}

#[test]
fn truncated_payload_is_an_error_and_consumes_nothing() {
    let mut b = Codec::new();
    b.feed(&[0, 0, 0, 0, 0, 0, 0, 5, 1, 2, 3]);
    assert_eq!(b.needed(), 2);
    assert_eq!(b.read_bytes(), Err(CodecError::Truncated));
    b.feed(&[4, 5]);
    assert_eq!(b.needed(), 0);
    assert_eq!(b.read_bytes().unwrap(), vec![1, 2, 3, 4, 5]);
}

#[test]
fn truncated_header_is_an_error() {
    let mut b = Codec::new();
    assert_eq!(b.needed(), 8);
    assert_eq!(b.read_bytes(), Err(CodecError::Truncated));
    b.feed(&[0, 0, 0]);
    assert_eq!(b.needed(), 5);
    assert_eq!(b.read_string(), Err(CodecError::Truncated));
}

#[test]
fn huge_declared_length_is_truncated() {
    let mut b = Codec::new();
    b.feed(&[255, 255, 255, 255, 255, 255, 255, 255, 1]);
    assert_eq!(b.needed(), u64::MAX - 1);
    assert_eq!(b.read_bytes(), Err(CodecError::Truncated));
}

#[test]
fn read_string_decodes_utf8() {
    let mut a = Codec::new();
    a.write_bytes("grüße".as_bytes());
    let mut b = Codec::new();
    b.feed(&a.take_outgoing());
    assert_eq!(b.read_string().unwrap(), "grüße");
}

#[test]
fn read_string_rejects_invalid_utf8() {
    let mut a = Codec::new();
    a.write_bytes(&[0xff, 0xfe]);
    a.write_bytes(b"next");
    let mut b = Codec::new();
    b.feed(&a.take_outgoing());
    assert_eq!(b.read_string(), Err(CodecError::InvalidUtf8));
    assert_eq!(b.read_string().unwrap(), "next");
}
