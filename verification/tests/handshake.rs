use franz::protocol::{parse_length, parse_u16, Handshake, HandshakeError};

#[test]
fn parse_data() {
    let input = "version=1,topic=test,api=producer";
    let mut data = Vec::new();
    data.extend_from_slice(input.as_bytes());

    let h = Handshake::parse_data(data).unwrap();
    println!("{:#?}", h);
}

#[test]
fn parse_data_fields() {
    let m = Handshake::parse_data(b"version=1,topic=test,api=producer".to_vec()).unwrap();
    assert_eq!(m.get(b"version").unwrap().as_slice(), b"1");
    assert_eq!(m.get(b"topic").unwrap().as_slice(), b"test");
    assert_eq!(m.get(b"api").unwrap().as_slice(), b"producer");
    assert!(m.get(b"group").is_none());
}

#[test]
fn parse_data_trims_and_lowercases_keys() {
    let m = Handshake::parse_data(b" Topic = Orders , API =produce".to_vec()).unwrap();
    assert_eq!(m.get(b"topic").unwrap().as_slice(), b"Orders");
    assert_eq!(m.get(b"api").unwrap().as_slice(), b"produce");
}

#[test]
fn parse_data_rejects_chunk_without_equals() {
    let r = Handshake::parse_data(b"junk,topic=t,api=a".to_vec());
    assert!(matches!(r, Err(HandshakeError::InvalidFormat)));
    let r = Handshake::parse_data(b"topic=t,api=a,".to_vec());
    assert!(matches!(r, Err(HandshakeError::InvalidFormat)));
    let r = Handshake::parse_data(b"".to_vec());
    assert!(matches!(r, Err(HandshakeError::InvalidFormat)));
}

#[test]
fn try_parse_rejects_malformed_pair() {
    let r = Handshake::try_parse(b"version=1,topic=orders,api=produce,junk".to_vec());
    assert!(matches!(r, Err(HandshakeError::InvalidFormat)));
}

#[test]
fn parse_data_last_duplicate_wins() {
    let m = Handshake::parse_data(b"topic=a,topic=b".to_vec()).unwrap();
    assert_eq!(m.get(b"topic").unwrap().as_slice(), b"b");
}

#[test]
fn parse_data_value_is_text_between_first_and_second_equals() {
    let m = Handshake::parse_data(b"k=a=b".to_vec()).unwrap();
    assert_eq!(m.get(b"k").unwrap().as_slice(), b"a");
}

#[test]
fn parse_data_reads_at_most_sixteen_fields() {
    let mut payload = String::new();
    for i in 0..18 {
        if i > 0 {
            payload.push(',');
        }
        payload.push_str(&format!("k{}=v{}", i, i));
    }
    let m = Handshake::parse_data(payload.into_bytes()).unwrap();
    assert_eq!(m.get(b"k15").unwrap().as_slice(), b"v15");
    assert!(m.get(b"k16").is_none());
    assert!(m.get(b"k17").is_none());
}

#[test]
fn parse_data_rejects_invalid_utf8() {
    let r = Handshake::parse_data(vec![0xff, 0xfe, 0x61]);
    assert!(matches!(r, Err(HandshakeError::FromUtf8Error)));
}

#[test]
fn try_parse_produce_handshake() {
    let h = Handshake::try_parse(b"version=1,topic=orders,api=produce".to_vec()).unwrap();
    assert_eq!(h._version, 1);
    assert!(h.group.is_none());
    assert_eq!(h.topic.as_slice(), b"orders");
    assert_eq!(h.api.as_slice(), b"produce");
}

#[test]
fn try_parse_consume_with_group() {
    let h = Handshake::try_parse(b"version=1,topic=orders,api=consume,group=7".to_vec()).unwrap();
    assert_eq!(h.group, Some(7));
    assert_eq!(h.api.as_slice(), b"consume");
}

#[test]
fn try_parse_missing_topic() {
    let r = Handshake::try_parse(b"version=1,api=produce".to_vec());
    assert!(matches!(r, Err(HandshakeError::ExpectedKey(k)) if k == "topic"));
}

#[test]
fn try_parse_missing_version() {
    let r = Handshake::try_parse(b"topic=t,api=produce".to_vec());
    assert!(matches!(r, Err(HandshakeError::ExpectedKey(k)) if k == "version"));
}

#[test]
fn try_parse_missing_api() {
    let r = Handshake::try_parse(b"version=1,topic=t".to_vec());
    assert!(matches!(r, Err(HandshakeError::ExpectedKey(k)) if k == "api"));
}

#[test]
fn try_parse_bad_group_number() {
    let r = Handshake::try_parse(b"version=1,topic=t,api=consume,group=99999".to_vec());
    assert!(matches!(r, Err(HandshakeError::ParseNum)));
    let r = Handshake::try_parse(b"version=1,topic=t,api=consume,group=abc".to_vec());
    assert!(matches!(r, Err(HandshakeError::ParseNum)));
}

#[test]
fn try_parse_bad_version_number() {
    let r = Handshake::try_parse(b"version=x,topic=t,api=produce".to_vec());
    assert!(matches!(r, Err(HandshakeError::ParseNum)));
}

#[test]
fn parse_u16_accepts_decimal() {
    assert_eq!(parse_u16(b"123").unwrap(), 123);
    assert_eq!(parse_u16(b"+42").unwrap(), 42);
    assert_eq!(parse_u16(b"0012").unwrap(), 12);
    assert_eq!(parse_u16(b"65535").unwrap(), 65535);
    assert_eq!(parse_u16(b"0").unwrap(), 0);
}

#[test]
fn parse_u16_rejects_junk() {
    assert!(matches!(parse_u16(b"65536"), Err(HandshakeError::ParseNum)));
    assert!(matches!(parse_u16(b""), Err(HandshakeError::ParseNum)));
    assert!(matches!(parse_u16(b"+"), Err(HandshakeError::ParseNum)));
    assert!(matches!(parse_u16(b"12a"), Err(HandshakeError::ParseNum)));
    assert!(matches!(parse_u16(b"-1"), Err(HandshakeError::ParseNum)));
    assert!(matches!(parse_u16(b"999999999999999"), Err(HandshakeError::ParseNum)));
}

#[test]
fn parse_length_reads_big_endian() {
    assert_eq!(parse_length(&[0, 0, 1, 2]).unwrap(), 258);
    assert_eq!(parse_length(&[0xde, 0xad, 0xbe, 0xef]).unwrap(), 0xdead_beef);
    assert!(matches!(parse_length(&[1, 2, 3]), Err(HandshakeError::IoError)));
}

#[test]
fn default_port_is_fixed() {
    assert_eq!(franz::default_port(), 8085);
}
