use base64::Engine as _;
use base64::engine::general_purpose::STANDARD;
use rwshell::b64::{b64_decode_bytes, b64_decode_checked, b64_encode_bytes};
use rwshell::codec::{encode_msg, encode_winsize_frame, encode_write_frame, u64_to_dec};
use rwshell::frames::{parse_client_frame, parse_envelope, parse_server_msg};
use rwshell::session::{InFrame, ServerMsg};

#[test]
fn base64_known_vectors() {
    // RFC 4648 test vectors: the wrapper must not hand its input back.
    assert_eq!(b64_encode_bytes(&b"".to_vec()), b"".to_vec());
    assert_eq!(b64_encode_bytes(&b"f".to_vec()), b"Zg==".to_vec());
    assert_eq!(b64_encode_bytes(&b"fo".to_vec()), b"Zm8=".to_vec());
    assert_eq!(b64_encode_bytes(&b"foo".to_vec()), b"Zm9v".to_vec());
    assert_eq!(b64_encode_bytes(&b"foob".to_vec()), b"Zm9vYg==".to_vec());
    assert_eq!(b64_encode_bytes(&b"fooba".to_vec()), b"Zm9vYmE=".to_vec());
    assert_eq!(b64_encode_bytes(&b"foobar".to_vec()), b"Zm9vYmFy".to_vec());
}

#[test]
fn base64_decode_is_inverse_and_strict() {
    assert_eq!(b64_decode_bytes(&b"Zm9vYmFy".to_vec()), Some(b"foobar".to_vec()));
    assert_eq!(b64_decode_bytes(&b"Zg==".to_vec()), Some(b"f".to_vec()));
    // Missing padding, bad characters, wrong length: all rejected.
    assert_eq!(b64_decode_bytes(&b"Zg".to_vec()), None);
    assert_eq!(b64_decode_bytes(&b"Z!==".to_vec()), None);
    assert_eq!(b64_decode_bytes(&b"A".to_vec()), None);
    assert_eq!(b64_decode_checked(&b"////".to_vec()), Some(vec![0xff, 0xff, 0xff]));
}

#[test]
fn decimal_rendering() {
    assert_eq!(u64_to_dec(0), b"0".to_vec());
    assert_eq!(u64_to_dec(7), b"7".to_vec());
    assert_eq!(u64_to_dec(65535), b"65535".to_vec());
    assert_eq!(u64_to_dec(18446744073709551615), b"18446744073709551615".to_vec());
}

#[test]
fn winsize_frame_matches_reference_encoders() {
    // Cross-check the verified encoder against serde_json-style JSON plus the
    // base64 crate itself.
    let inner = r#"{"Cols":80,"Rows":24}"#;
    let expected = format!(
        r#"{{"Type":"WinSize","Data":"{}"}}"#,
        STANDARD.encode(inner.as_bytes())
    );
    let got = encode_winsize_frame(80, 24);
    assert_eq!(String::from_utf8(got).unwrap(), expected);
}

#[test]
fn write_frame_matches_reference_encoders() {
    let payload = b"hello\n";
    let inner = format!(r#"{{"Size":6,"Data":"{}"}}"#, STANDARD.encode(payload));
    let expected = format!(
        r#"{{"Type":"Write","Data":"{}"}}"#,
        STANDARD.encode(inner.as_bytes())
    );
    let got = encode_write_frame(&payload.to_vec());
    assert_eq!(String::from_utf8(got).unwrap(), expected);
}

#[test]
fn readonly_and_headless_frames() {
    let ro = encode_msg(&ServerMsg::ReadOnly(true));
    let expected_ro = format!(
        r#"{{"Type":"ReadOnly","Data":"{}"}}"#,
        STANDARD.encode(br#"{"ReadOnly":true}"#)
    );
    assert_eq!(String::from_utf8(ro).unwrap(), expected_ro);
    let hl = encode_msg(&ServerMsg::Headless(false));
    let expected_hl = format!(
        r#"{{"Type":"Headless","Data":"{}"}}"#,
        STANDARD.encode(br#"{"Headless":false}"#)
    );
    assert_eq!(String::from_utf8(hl).unwrap(), expected_hl);
}

#[test]
fn write_frame_round_trip_small() {
    let payload = b"hello\n".to_vec();
    let frame = encode_write_frame(&payload);
    assert_eq!(parse_client_frame(&frame), Some(InFrame::Write(payload)));
}

#[test]
fn write_frame_round_trip_four_kib() {
    let payload: Vec<u8> = (0..4096u32).map(|i| (i * 31 % 256) as u8).collect();
    let frame = encode_write_frame(&payload);
    assert_eq!(parse_client_frame(&frame), Some(InFrame::Write(payload)));
}

#[test]
fn winsize_frame_round_trip() {
    let frame = encode_winsize_frame(111, 30);
    assert_eq!(parse_client_frame(&frame), Some(InFrame::WinSize(111, 30)));
}

#[test]
fn envelope_accepts_either_key_order() {
    let inner = STANDARD.encode(br#"{"Cols":101,"Rows":31}"#);
    let reordered = format!(r#"{{"Data":"{}","Type":"WinSize"}}"#, inner);
    let parsed = parse_client_frame(&reordered.into_bytes());
    assert_eq!(parsed, Some(InFrame::WinSize(101, 31)));
}

#[test]
fn inner_object_accepts_either_key_order() {
    let payload = b"ab";
    let inner = format!(r#"{{"Data":"{}","Size":2}}"#, STANDARD.encode(payload));
    let frame = format!(
        r#"{{"Type":"Write","Data":"{}"}}"#,
        STANDARD.encode(inner.as_bytes())
    );
    assert_eq!(
        parse_client_frame(&frame.into_bytes()),
        Some(InFrame::Write(b"ab".to_vec()))
    );
}

#[test]
fn stated_size_is_not_checked_against_payload() {
    let payload = b"abc";
    let inner = format!(r#"{{"Size":999,"Data":"{}"}}"#, STANDARD.encode(payload));
    let frame = format!(
        r#"{{"Type":"Write","Data":"{}"}}"#,
        STANDARD.encode(inner.as_bytes())
    );
    assert_eq!(
        parse_client_frame(&frame.into_bytes()),
        Some(InFrame::Write(b"abc".to_vec()))
    );
}

#[test]
fn unknown_frame_types_are_reported_for_dropping() {
    let frame = format!(r#"{{"Type":"Ping","Data":"{}"}}"#, STANDARD.encode(b"{}"));
    assert_eq!(parse_client_frame(&frame.into_bytes()), Some(InFrame::Other));
}

#[test]
fn malformed_frames_are_rejected() {
    assert_eq!(parse_client_frame(&b"not json".to_vec()), None);
    assert_eq!(parse_client_frame(&b"{}".to_vec()), None);
    assert_eq!(parse_client_frame(&br#"{"Type":"Write"}"#.to_vec()), None);
    // Well-formed envelope, but Data is not base64.
    assert_eq!(
        parse_client_frame(&br#"{"Type":"Write","Data":"!!!"}"#.to_vec()),
        None
    );
    // Base64 that decodes, but the inner object is not a Write inner.
    let frame = format!(r#"{{"Type":"Write","Data":"{}"}}"#, STANDARD.encode(b"[]"));
    assert_eq!(parse_client_frame(&frame.into_bytes()), None);
    // Numbers out of range for a u16 size.
    let inner = STANDARD.encode(br#"{"Cols":70000,"Rows":31}"#);
    let frame = format!(r#"{{"Type":"WinSize","Data":"{}"}}"#, inner);
    assert_eq!(parse_client_frame(&frame.into_bytes()), None);
    // Leading zeros are not valid JSON numbers.
    let inner = STANDARD.encode(br#"{"Cols":0080,"Rows":24}"#);
    let frame = format!(r#"{{"Type":"WinSize","Data":"{}"}}"#, inner);
    assert_eq!(parse_client_frame(&frame.into_bytes()), None);
}

#[test]
fn parse_envelope_extracts_type_and_data() {
    let m = parse_envelope(&br#"{"Type":"Write","Data":"AAAA"}"#.to_vec()).unwrap();
    assert_eq!(m.msg_type, b"Write".to_vec());
    assert_eq!(m.data, b"AAAA".to_vec());
    assert!(parse_envelope(&br#"{"Type":"Write","Data":"AAAA"} "#.to_vec()).is_none());
}

#[test]
fn server_messages_parse_on_the_client_side() {
    let w = encode_msg(&ServerMsg::Write(b"out".to_vec()));
    assert_eq!(parse_server_msg(&w), Some(ServerMsg::Write(b"out".to_vec())));
    let ws = encode_msg(&ServerMsg::WinSize(90, 25));
    assert_eq!(parse_server_msg(&ws), Some(ServerMsg::WinSize(90, 25)));
    let ro = encode_msg(&ServerMsg::ReadOnly(true));
    assert_eq!(parse_server_msg(&ro), Some(ServerMsg::ReadOnly(true)));
    let hl = encode_msg(&ServerMsg::Headless(true));
    assert_eq!(parse_server_msg(&hl), Some(ServerMsg::Headless(true)));
    assert_eq!(parse_server_msg(&b"garbage".to_vec()), None);
    let unknown = format!(r#"{{"Type":"Ping","Data":"{}"}}"#, STANDARD.encode(b"{}"));
    assert_eq!(parse_server_msg(&unknown.into_bytes()), None);
}

#[test]
fn serde_json_accepts_our_frames() {
    // The reference JSON parser agrees with what the encoder claims.
    let frame = encode_write_frame(&b"interop".to_vec());
    let v: serde_json::Value = serde_json::from_slice(&frame).unwrap();
    assert_eq!(v.get("Type").and_then(|t| t.as_str()), Some("Write"));
    let data = v.get("Data").and_then(|d| d.as_str()).unwrap();
    let inner_bytes = STANDARD.decode(data).unwrap();
    let inner: serde_json::Value = serde_json::from_slice(&inner_bytes).unwrap();
    assert_eq!(inner.get("Size").and_then(|s| s.as_u64()), Some(7));
    let payload = STANDARD
        .decode(inner.get("Data").and_then(|d| d.as_str()).unwrap())
        .unwrap();
    assert_eq!(payload, b"interop".to_vec());
}
