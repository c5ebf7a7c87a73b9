use picana::picana_core::dump_parser::{decode_frame, decode_frame_memchr, parse_raw, ParseError};
use picana::picana_core::frame::{CanFrame, ConstructionError};

fn both(line: &[u8]) -> Result<(u64, String, CanFrame), ParseError> {
    let a = decode_frame(line).map(|(t, d, f)| (t, d.to_string(), f));
    let b = decode_frame_memchr(line).map(|(t, d, f)| (t, d.to_string(), f));
    assert_eq!(a, b);
    a
}

#[test]
fn parse_raw_reads_decimal_and_hex() {
    assert_eq!(parse_raw(b"123", 10), Some(123));
    assert_eq!(parse_raw(b"+7", 10), Some(7));
    assert_eq!(parse_raw(b"0007", 10), Some(7));
    assert_eq!(parse_raw(b"1A", 16), Some(26));
    assert_eq!(parse_raw(b"1a", 16), Some(26));
    assert_eq!(parse_raw(b"18446744073709551615", 10), Some(u64::MAX));
}

#[test]
fn parse_raw_refuses_bad_text() {
    assert_eq!(parse_raw(b"", 10), None);
    assert_eq!(parse_raw(b"+", 10), None);
    assert_eq!(parse_raw(b"-1", 10), None);
    assert_eq!(parse_raw(b"1a", 10), None);
    assert_eq!(parse_raw(b" 1", 10), None);
    assert_eq!(parse_raw(b"18446744073709551616", 10), None);
    assert_eq!(parse_raw(&[0xff, 0x31], 10), None);
}

#[test]
fn decodes_a_data_frame() {
    let (t, dev, f) = both(b"(1436509052.249713) vcan0 044#2A366C2BBA").unwrap();
    assert_eq!(t, 1436509052249713);
    assert_eq!(dev, "vcan0");
    assert_eq!(f.id, 0x44);
    assert_eq!(f.data, vec![0x2A, 0x36, 0x6C, 0x2B, 0xBA]);
    assert!(!f.remote);
    assert!(!f.error);
    assert!(!f.extended);
    assert_eq!(f.error_code, 0x44);
}

#[test]
fn decodes_a_remote_frame() {
    let (t, dev, f) = both(b"(1.5) can0 123#R").unwrap();
    assert_eq!(t, 1_000_005);
    assert_eq!(dev, "can0");
    assert_eq!(f.id, 0x123);
    assert!(f.remote);
    assert!(f.data.is_empty());
}

#[test]
fn drops_one_trailing_newline() {
    let (_, _, f) = both(b"(1.2) can0 7FF#0102\n").unwrap();
    assert_eq!(f.data, vec![1, 2]);
    let (_, _, f) = both(b"(1.2) can0 7FF#R\n").unwrap();
    assert!(f.remote);
}

#[test]
fn extended_identifiers() {
    let (_, _, f) = both(b"(1.2) can0 12345678#").unwrap();
    assert_eq!(f.id, 0x12345678);
    assert!(f.extended);
    assert!(f.data.is_empty());
    let (_, _, f) = both(b"(1.2) can0 800#00").unwrap();
    assert!(f.extended);
    let (_, _, f) = both(b"(1.2) can0 7FF#00").unwrap();
    assert!(!f.extended);
}

#[test]
fn identifier_keeps_its_low_32_bits() {
    let (_, _, f) = both(b"(1.2) can0 100000001#00").unwrap();
    assert_eq!(f.id, 1);
}

#[test]
fn timestamp_saturates() {
    let (t, _, _) = both(b"(18446744073709551615.5) can0 1#00").unwrap();
    assert_eq!(t, u64::MAX);
    let (t, _, _) = both(b"(18446744073709.551615) can0 1#00").unwrap();
    assert_eq!(t, 18446744073709551615);
}

#[test]
fn extra_fields_are_ignored() {
    let (_, dev, f) = both(b"(1.2) can0 1#00 trailing words").unwrap();
    assert_eq!(dev, "can0");
    assert_eq!(f.data, vec![0]);
}

#[test]
fn timestamp_errors() {
    assert_eq!(both(b""), Err(ParseError::InvalidTimestamp));
    assert_eq!(both(b"1.2 can0 1#00"), Err(ParseError::InvalidTimestamp));
    assert_eq!(both(b"() can0 1#00"), Err(ParseError::InvalidTimestamp));
    assert_eq!(both(b"(12) can0 1#00"), Err(ParseError::InvalidTimestamp));
    assert_eq!(both(b"(1.x) can0 1#00"), Err(ParseError::InvalidTimestamp));
    assert_eq!(both(b"(.1) can0 1#00"), Err(ParseError::InvalidTimestamp));
}

#[test]
fn missing_fields() {
    assert_eq!(both(b"(1.2)"), Err(ParseError::UnexpectedEndOfLine));
    assert_eq!(both(b"(1.2) can0"), Err(ParseError::UnexpectedEndOfLine));
}

#[test]
fn device_must_be_utf8() {
    assert_eq!(both(b"(1.2) \xff\xfe 1#00"), Err(ParseError::InvalidDeviceName));
}

#[test]
fn frame_errors() {
    assert_eq!(both(b"(1.2) can0 123"), Err(ParseError::InvalidCanFrame));
    assert_eq!(both(b"(1.2) can0 123#0"), Err(ParseError::InvalidCanFrame));
    assert_eq!(both(b"(1.2) can0 123#0G"), Err(ParseError::InvalidCanFrame));
    assert_eq!(both(b"(1.2) can0 xyz#00"), Err(ParseError::InvalidCanFrame));
    assert_eq!(both(b"(1.2) can0 #00"), Err(ParseError::InvalidCanFrame));
    assert_eq!(
        both(b"(1.2) can0 123#000102030405060708"),
        Err(ParseError::ConstructionError(ConstructionError::TooMuchData))
    );
    assert_eq!(
        both(b"(1.2) can0 20000000#00"),
        Err(ParseError::ConstructionError(ConstructionError::IDTooLarge))
    );
    assert_eq!(
        both(b"(1.2) can0 20000000#000102030405060708"),
        Err(ParseError::ConstructionError(ConstructionError::TooMuchData))
    );
}

#[test]
fn can_frame_new() {
    let f = CanFrame::new(0x1FFFFFFF, &[1, 2, 3, 4, 5, 6, 7, 8], true, true).unwrap();
    assert_eq!(f.id, 0x1FFFFFFF);
    assert_eq!(f.data, vec![1, 2, 3, 4, 5, 6, 7, 8]);
    assert!(f.remote && f.error && f.extended);
    assert_eq!(f.error_code, 0x1FFFFFFF);
    assert_eq!(
        CanFrame::new(0x20000000, &[], false, false),
        Err(ConstructionError::IDTooLarge)
    );
    assert_eq!(
        CanFrame::new(1, &[0; 9], false, false),
        Err(ConstructionError::TooMuchData)
    );
}

#[test]
fn written_line_reads_back() {
    let cases: [(u64, u64, &str, u32, &[u8], bool); 4] = [
        (1436509052, 249713, "vcan0", 0x44, &[0x2A, 0x36, 0x6C], false),
        (0, 0, "can1", 0x1FFFFFFF, &[], false),
        (7, 999999, "can2", 0x7FF, &[], true),
        (u64::MAX, 1, "x", 0x800, &[0, 255, 16, 1, 2, 3, 4, 5], false),
    ];
    for (secs, micros, device, id, data, remote) in cases.iter() {
        let payload: String = if *remote {
            "R".to_string()
        } else {
            data.iter().map(|b| format!("{:02X}", b)).collect()
        };
        let line = format!("({}.{}) {} {:X}#{}\n", secs, micros, device, id, payload);
        let (t, dev, f) = decode_frame(line.as_bytes()).unwrap();
        assert_eq!(t, secs.saturating_mul(1_000_000).saturating_add(*micros));
        assert_eq!(dev, *device);
        assert_eq!(f.id, *id);
        assert_eq!(f.data, data.to_vec());
        assert_eq!(f.remote, *remote);
        assert!(!f.error);
        assert_eq!(f.extended, *id > 0x7FF);
        assert_eq!(f.error_code, *id);
    }
}
