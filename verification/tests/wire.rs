use byteorder::{BigEndian, ReadBytesExt};
use franz::codec::{
    correlation_response, decode_frame, Decode, Encode, KafkaString, RequestHeaderV2,
};
use franz::reader::{slice_be_u16, slice_be_u32, slice_be_u64, BytesReader, WireError};

#[test]
fn reader_reads_and_advances() {
    let buf = [1u8, 2, 3, 4, 5];
    let mut r = BytesReader::new(&buf);
    assert!(!r.is_empty());
    let head = r.read_bytes(2).unwrap();
    assert_eq!(head, &[1, 2]);
    assert_eq!(r.get_remaining_bytes(), &[3, 4, 5]);
    let rest = r.read_bytes(3).unwrap();
    assert_eq!(rest, &[3, 4, 5]);
    assert!(r.is_empty());
}

#[test]
fn reader_fails_without_consuming() {
    let buf = [1u8, 2];
    let mut r = BytesReader::new(&buf);
    assert!(matches!(r.read_bytes(3), Err(WireError::UnexpectedEof)));
    assert_eq!(r.get_remaining_bytes(), &[1, 2]);
}

#[test]
fn reader_advance_does_not_move() {
    let buf = [9u8, 8, 7];
    let r = BytesReader::new(&buf);
    assert_eq!(r.advance_bytes(1).unwrap(), &[8, 7]);
    assert_eq!(r.get_remaining_bytes(), &[9, 8, 7]);
    let r2 = r.advance_bytes_reader(2).unwrap();
    assert_eq!(r2.get_remaining_bytes(), &[7]);
    assert!(r.advance_bytes(4).is_err());
}

#[test]
fn reader_read_copies_into_buffer() {
    let buf = [1u8, 2, 3];
    let mut r = BytesReader::new(&buf);
    let mut out = vec![0u8; 2];
    assert_eq!(r.read(&mut out), 2);
    assert_eq!(out, vec![1, 2]);
    assert_eq!(r.read(&mut out), 1);
    assert_eq!(out, vec![3, 2]);
}

#[test]
fn big_endian_reads_match_byteorder() {
    let buf = [0x12u8, 0x34, 0x56, 0x78, 0x9a, 0xbc, 0xde, 0xf0];
    assert_eq!(slice_be_u16(&buf), (&buf[..]).read_u16::<BigEndian>().unwrap());
    assert_eq!(slice_be_u32(&buf), (&buf[..]).read_u32::<BigEndian>().unwrap());
    assert_eq!(slice_be_u64(&buf), (&buf[..]).read_u64::<BigEndian>().unwrap());
}

#[test]
fn kafka_string_parses() {
    let buf = [0u8, 3, b'a', b'b', b'c', 9];
    let mut r = BytesReader::new(&buf);
    let s: KafkaString = r.parse().unwrap();
    assert_eq!(s.0, "abc");
    assert_eq!(r.get_remaining_bytes(), &[9]);
}

#[test]
fn kafka_string_rejects_negative_length() {
    let buf = [0x80u8, 0, 1];
    let mut r = BytesReader::new(&buf);
    let e = r.parse::<KafkaString>().unwrap_err();
    assert!(matches!(e, WireError::NegativeLength));
}

#[test]
fn kafka_string_rejects_short_and_invalid() {
    let buf = [0u8, 5, b'a'];
    let mut r = BytesReader::new(&buf);
    assert!(matches!(r.parse::<KafkaString>(), Err(WireError::UnexpectedEof)));
    let bad = [0u8, 1, 0xff];
    let mut r = BytesReader::new(&bad);
    assert!(matches!(r.parse::<KafkaString>(), Err(WireError::InvalidUtf8)));
}

#[test]
fn nullable_string_parses_null() {
    let buf = [0xffu8, 0xff, 1, 2];
    let mut r = BytesReader::new(&buf);
    let s: Option<KafkaString> = r.parse().unwrap();
    assert!(s.is_none());
    assert_eq!(r.get_remaining_bytes(), &[1, 2]);
}

#[test]
fn request_header_parses() {
    let buf = [
        0u8, 3, // api key
        0, 1, // api version
        0x01, 0x02, 0x03, 0x04, // correlation id
        0, 2, b'i', b'd', // client id
    ];
    let mut r = BytesReader::new(&buf);
    let h: RequestHeaderV2 = r.parse().unwrap();
    assert_eq!(h.request_api_key, 3);
    assert_eq!(h.request_api_version, 1);
    assert_eq!(h.correlation_id, 0x01020304);
    assert_eq!(h.client_id.unwrap().0, "id");
    assert!(r.is_empty());
}

#[test]
fn request_header_null_client_id() {
    let buf = [0u8, 0, 0, 0, 0, 0, 0, 7, 0xff, 0xff];
    let mut r = BytesReader::new(&buf);
    let h: RequestHeaderV2 = r.parse().unwrap();
    assert_eq!(h.correlation_id, 7);
    assert!(h.client_id.is_none());
}

#[test]
fn frame_needs_more_bytes() {
    assert!(decode_frame(&[0, 0]).unwrap().is_none());
    assert!(decode_frame(&[0, 0, 0, 5, 1, 2]).unwrap().is_none());
}

#[test]
fn frame_splits_payload_and_rest() {
    let buf = [0u8, 0, 0, 2, 0xaa, 0xbb, 0xcc];
    let (payload, rest) = decode_frame(&buf).unwrap().unwrap();
    assert_eq!(payload, &[0xaa, 0xbb]);
    assert_eq!(rest, &[0xcc]);
}

#[test]
fn frame_rejects_negative_length() {
    let buf = [0xffu8, 0xff, 0xff, 0xff, 0];
    assert!(matches!(decode_frame(&buf), Err(WireError::NegativeLength)));
}

#[test]
fn correlation_response_echoes_id() {
    assert_eq!(correlation_response(7), vec![0, 0, 0, 4, 0, 0, 0, 7]);
    assert_eq!(correlation_response(-1), vec![0, 0, 0, 4, 0xff, 0xff, 0xff, 0xff]);
}

#[test]
fn decode_scalars_match_byteorder() {
    let buf = [0x81u8, 0x02, 0x03, 0x04, 0x05, 0x06, 0x07, 0x08];
    let mut r = BytesReader::new(&buf);
    let v: i32 = Decode::decode(&mut r).unwrap();
    assert_eq!(v, (&buf[..]).read_i32::<BigEndian>().unwrap());
    let mut r = BytesReader::new(&buf);
    let v: i64 = Decode::decode(&mut r).unwrap();
    assert_eq!(v, (&buf[..]).read_i64::<BigEndian>().unwrap());
    let mut r = BytesReader::new(&buf);
    let v: i16 = Decode::decode(&mut r).unwrap();
    assert_eq!(v, (&buf[..]).read_i16::<BigEndian>().unwrap());
    let mut r = BytesReader::new(&buf);
    let v: u8 = Decode::decode(&mut r).unwrap();
    assert_eq!(v, 0x81);
    let mut r = BytesReader::new(&buf);
    let v: i8 = Decode::decode(&mut r).unwrap();
    assert_eq!(v, 0x81u8 as i8);
}

#[test]
fn decode_string_is_lossy() {
    let buf = [0u8, 2, b'h', b'i'];
    let mut r = BytesReader::new(&buf);
    let s: String = Decode::decode(&mut r).unwrap();
    assert_eq!(s, "hi");

    let bad = [0u8, 1, 0xff];
    let mut r = BytesReader::new(&bad);
    let s: String = Decode::decode(&mut r).unwrap();
    assert_eq!(s, "\u{fffd}");
}

#[test]
fn decode_nullable_string() {
    let buf = [0xffu8, 0xff];
    let mut r = BytesReader::new(&buf);
    let s: Option<String> = Decode::decode(&mut r).unwrap();
    assert!(s.is_none());
}

#[test]
fn decode_vec_of_i32() {
    let buf = [0u8, 0, 0, 2, 0, 0, 0, 5, 0, 0, 0, 6];
    let mut r = BytesReader::new(&buf);
    let v: Vec<i32> = Decode::decode(&mut r).unwrap();
    assert_eq!(v, vec![5, 6]);
}

#[test]
fn decode_vec_negative_count_is_empty() {
    let buf = [0xffu8, 0xff, 0xff, 0xfe];
    let mut r = BytesReader::new(&buf);
    let v: Vec<i32> = Decode::decode(&mut r).unwrap();
    assert!(v.is_empty());
}

#[test]
fn decode_nullable_vec() {
    let buf = [0xffu8, 0xff, 0xff, 0xff];
    let mut r = BytesReader::new(&buf);
    let v: Option<Vec<i32>> = Decode::decode(&mut r).unwrap();
    assert!(v.is_none());
}

#[test]
fn decode_vec_fails_on_missing_elements() {
    let buf = [0u8, 0, 0, 3, 0, 0, 0, 5];
    let mut r = BytesReader::new(&buf);
    let v: Result<Vec<i32>, WireError> = Decode::decode(&mut r);
    assert!(matches!(v, Err(WireError::UnexpectedEof)));
}

#[test]
fn encode_scalars_round_trip() {
    let mut out = Vec::new();
    (-2i32).encode(&mut out);
    0x1234i16.encode(&mut out);
    assert_eq!(out, vec![0xff, 0xff, 0xff, 0xfe, 0x12, 0x34]);
    assert_eq!((-2i32).get_size(), 4);
    assert_eq!(0x1234i16.get_size(), 2);

    let mut r = BytesReader::new(out.as_slice());
    let back: i32 = Decode::decode(&mut r).unwrap();
    assert_eq!(back, -2);
    let back: i16 = Decode::decode(&mut r).unwrap();
    assert_eq!(back, 0x1234);
}

#[test]
fn encode_string_round_trips() {
    let s = String::from("orders");
    assert_eq!(s.get_size(), 8);
    let mut out = Vec::new();
    s.encode(&mut out);
    assert_eq!(out, vec![0, 6, b'o', b'r', b'd', b'e', b'r', b's']);
    let mut r = BytesReader::new(out.as_slice());
    let back: String = Decode::decode(&mut r).unwrap();
    assert_eq!(back, "orders");
}

#[test]
fn encode_vec_round_trips() {
    let v: Vec<i32> = vec![1, -1, 7];
    assert_eq!(v.get_size(), 4 + 12);
    let mut out = Vec::new();
    v.encode(&mut out);
    assert_eq!(out.len(), 16);
    let mut r = BytesReader::new(out.as_slice());
    let back: Vec<i32> = Decode::decode(&mut r).unwrap();
    assert_eq!(back, v);
}
