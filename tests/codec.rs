use quic_telemetry::codec::{
    decode_sample, draw_sample, encode_sample, format_value, handle_payload, parse_value_text,
    sample_from_fields, DecodeError, StreamReport, TelemetrySample, READING_HIGH, READING_LOW,
};

fn sample(sender: &str, hundredths: i64) -> TelemetrySample {
    TelemetrySample { sender: sender.to_string(), hundredths }
}

#[test]
fn value_text_has_two_decimals() {
    assert_eq!(format_value(2345), b"23.45".to_vec());
    assert_eq!(format_value(-5), b"-0.05".to_vec());
    assert_eq!(format_value(0), b"0.00".to_vec());
    assert_eq!(format_value(3500), b"35.00".to_vec());
    assert_eq!(format_value(-123456), b"-1234.56".to_vec());
}

#[test]
fn value_text_is_read_back() {
    assert_eq!(parse_value_text(b"23.45"), Some(2345));
    assert_eq!(parse_value_text(b"23.4"), Some(2340));
    assert_eq!(parse_value_text(b"23"), Some(2300));
    assert_eq!(parse_value_text(b"23.456"), Some(2346));
    assert_eq!(parse_value_text(b"23.454"), Some(2345));
    assert_eq!(parse_value_text(b"23.455"), Some(2346));
    assert_eq!(parse_value_text(b"-23.456"), Some(-2346));
    assert_eq!(parse_value_text(b"0.999"), Some(100));
    assert_eq!(parse_value_text(b"-0.05"), Some(-5));
    assert_eq!(parse_value_text(b"0"), Some(0));
}

#[test]
fn extreme_values_are_read_back() {
    for h in [999_999_999_999_999, -999_999_999_999_999, -1, 1, 99, -100] {
        assert_eq!(parse_value_text(&format_value(h)), Some(h));
    }
}

#[test]
fn malformed_value_text_is_refused() {
    assert_eq!(parse_value_text(b""), None);
    assert_eq!(parse_value_text(b"-"), None);
    assert_eq!(parse_value_text(b"23."), None);
    assert_eq!(parse_value_text(b".5"), None);
    assert_eq!(parse_value_text(b"2.3e1"), None);
    assert_eq!(parse_value_text(b"1e21"), None);
    assert_eq!(parse_value_text(b"99999999999999999999"), None);
    assert_eq!(parse_value_text(b"9999999999999.99"), Some(999_999_999_999_999));
    assert_eq!(parse_value_text(b"-9999999999999.99"), Some(-999_999_999_999_999));
    assert_eq!(parse_value_text(b"9999999999999.995"), None);
    assert_eq!(parse_value_text(b"10000000000000"), None);
}

#[test]
fn sample_encodes_as_json_record() {
    let bytes = encode_sample(&sample("dev1", 2345));
    assert_eq!(bytes, br#"{"sender":"dev1","temperature":23.45}"#.to_vec());
}

#[test]
fn sender_text_is_escaped() {
    let bytes = encode_sample(&sample("a\"b\\c", 2000));
    assert_eq!(bytes, br#"{"sender":"a\"b\\c","temperature":20.00}"#.to_vec());
}

#[test]
fn encode_then_decode_gives_the_sample_back() {
    let cases = [
        ("dev1", 2345),
        ("", 0),
        ("sensor \"x\"", -1750),
        ("température", 3499),
        ("k", 2000),
        ("big", 999_999_999_999_999),
        ("small", -999_999_999_999_999),
    ];
    for (sender, h) in cases {
        let bytes = encode_sample(&sample(sender, h));
        let back = decode_sample(&bytes).ok().unwrap();
        assert_eq!(back.sender, sender);
        assert_eq!(back.hundredths, h);
    }
}

#[test]
fn decode_accepts_other_json_layouts() {
    let back = decode_sample(br#" { "temperature" : 21 , "sender" : "d2", "x": [1] } "#).ok().unwrap();
    assert_eq!(back.sender, "d2");
    assert_eq!(back.hundredths, 2100);
    let back = decode_sample(br#"{"sender":"d3","temperature":2.345e1}"#).ok().unwrap();
    assert_eq!(back.hundredths, 2345);
}

#[test]
fn non_json_is_not_decoded() {
    assert_eq!(decode_sample(b"not json").err(), Some(DecodeError::NotJson));
    assert_eq!(decode_sample(b"").err(), Some(DecodeError::NotJson));
    assert_eq!(decode_sample(b"{\"sender\":").err(), Some(DecodeError::NotJson));
    assert_eq!(decode_sample(&[0xff, 0xfe, 0x00]).err(), Some(DecodeError::NotJson));
}

#[test]
fn missing_members_are_reported() {
    assert_eq!(decode_sample(br#"{"temperature":1.5}"#).err(), Some(DecodeError::MissingSender));
    assert_eq!(decode_sample(br#"{"sender":7,"temperature":1.5}"#).err(), Some(DecodeError::MissingSender));
    assert_eq!(decode_sample(br#"{"sender":"a"}"#).err(), Some(DecodeError::MissingValue));
    assert_eq!(decode_sample(br#"{"sender":"a","temperature":"1.5"}"#).err(), Some(DecodeError::MissingValue));
    assert_eq!(decode_sample(br#"[1,2]"#).err(), Some(DecodeError::MissingSender));
    assert_eq!(decode_sample(br#"{"sender":"a","temperature":1e300}"#).err(), Some(DecodeError::ValueOutOfRange));
}

#[test]
fn fields_make_a_sample() {
    let s = sample_from_fields(Some("d".to_string()), Some(b"23.45".to_vec())).ok().unwrap();
    assert_eq!((s.sender.as_str(), s.hundredths), ("d", 2345));
    assert_eq!(sample_from_fields(None, Some(b"1".to_vec())).err(), Some(DecodeError::MissingSender));
    assert_eq!(sample_from_fields(Some("d".to_string()), None).err(), Some(DecodeError::MissingValue));
    assert_eq!(sample_from_fields(Some("d".to_string()), Some(b"x".to_vec())).err(), Some(DecodeError::ValueOutOfRange));
}

#[test]
fn malformed_body_is_kept_as_lossy_text() {
    let body = [b'o', b'k', 0xff, b'!'];
    match handle_payload(&body) {
        StreamReport::Rejected { error, raw_text } => {
            assert_eq!(error, DecodeError::NotJson);
            assert_eq!(raw_text, "ok\u{fffd}!");
        }
        StreamReport::Received(_) => panic!("a malformed body was decoded"),
    }
}

#[test]
fn well_formed_body_is_received() {
    match handle_payload(br#"{"sender":"dev1","temperature":23.45}"#) {
        StreamReport::Received(s) => {
            assert_eq!(s.sender, "dev1");
            assert_eq!(s.hundredths, 2345);
        }
        StreamReport::Rejected { .. } => panic!("a sample was refused"),
    }
}

#[test]
fn drawn_samples_stay_in_range() {
    let name = "dev1".to_string();
    for _ in 0..1000 {
        let s = draw_sample(&name);
        assert_eq!(s.sender, "dev1");
        assert!(READING_LOW <= s.hundredths && s.hundredths < READING_HIGH);
    }
}
