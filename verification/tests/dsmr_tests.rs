use dsmr_sma_limiter::binary64::Binary64;
use dsmr_sma_limiter::crc::crc16_arc;
use dsmr_sma_limiter::dsmr::{parse_telegram, DsmrError, OBIS_EXPORT, OBIS_IMPORT};

fn f(x: Binary64) -> f64 {
    f64::from_bits(x.to_bits())
}

/// Terminates a telegram body with `!` and its CRC.
fn build_telegram(body: &str) -> String {
    let with_bang = format!("{body}!");
    let crc = crc16_arc(with_bang.as_bytes());
    format!("{with_bang}{crc:04X}\r\n")
}

#[test]
fn parses_known_good_telegram() {
    let body = "/XMX5LGBBFFB123456789\r\n\r\n\
1-3:0.2.8(50)\r\n\
0-0:1.0.0(230101120000W)\r\n\
1-0:1.7.0(00.421*kW)\r\n\
1-0:2.7.0(01.234*kW)\r\n";
    let telegram = build_telegram(body);
    let parsed = parse_telegram(&telegram).expect("should parse");
    assert!((f(parsed.import_w) - 421.0).abs() < 1e-6);
    assert!((f(parsed.export_w) - 1234.0).abs() < 1e-6);
}

#[test]
fn rejects_corrupted_crc() {
    let body = "/XMX5LGBBFFB123456789\r\n\r\n\
1-0:1.7.0(00.421*kW)\r\n\
1-0:2.7.0(01.234*kW)\r\n";
    let mut telegram = build_telegram(body);
    // Flip a byte in the payload without updating the trailing CRC.
    telegram.replace_range(30..31, "9");
    let err = parse_telegram(&telegram).unwrap_err();
    assert!(matches!(err, DsmrError::CrcMismatch { .. }));
}

#[test]
fn rejects_missing_markers() {
    assert_eq!(parse_telegram("garbage"), Err(DsmrError::MissingMarkers));
}

#[test]
fn rejects_missing_obis_code() {
    let body = "/XMX5LGBBFFB123456789\r\n1-0:2.7.0(01.234*kW)\r\n";
    let telegram = build_telegram(body);
    let err = parse_telegram(&telegram).unwrap_err();
    assert_eq!(err, DsmrError::MissingObis(OBIS_IMPORT));
}

#[test]
fn crc_of_known_data() {
    assert_eq!(crc16_arc(b"123456789"), 0xBB3D);
    assert_eq!(crc16_arc(b""), 0);
    assert_eq!(crc16_arc(b"A"), 0x30C0);
}

#[test]
fn rejects_markers_in_the_wrong_order() {
    assert_eq!(parse_telegram("!0000/"), Err(DsmrError::MissingMarkers));
    assert_eq!(parse_telegram("/abc"), Err(DsmrError::MissingMarkers));
    assert_eq!(parse_telegram("abc!1234"), Err(DsmrError::MissingMarkers));
}

#[test]
fn rejects_malformed_crc() {
    assert_eq!(parse_telegram("/abc!\r\n"), Err(DsmrError::MalformedCrc));
    assert_eq!(parse_telegram("/abc!xyz"), Err(DsmrError::MalformedCrc));
    assert_eq!(parse_telegram("/abc!12345"), Err(DsmrError::MalformedCrc));
}

#[test]
fn reports_both_crcs() {
    let computed = crc16_arc(b"/abc!");
    assert_ne!(computed, 0x0001);
    assert_eq!(
        parse_telegram("/abc!0001"),
        Err(DsmrError::CrcMismatch { computed, declared: 1 })
    );
}

#[test]
fn crc_digits_may_be_lower_case_or_few() {
    let body = "/x\r\n1-0:1.7.0(1)\r\n1-0:2.7.0(2)\r\n!";
    let crc = crc16_arc(body.as_bytes());
    assert!(parse_telegram(&format!("{body}{crc:x}")).is_ok());
    assert!(parse_telegram(&format!("{body}{crc:X}\r\n")).is_ok());
}

#[test]
fn text_before_the_telegram_is_not_covered() {
    let telegram = build_telegram("/x\r\n1-0:1.7.0(00.421*kW)\r\n1-0:2.7.0(01.234*kW)\r\n");
    let parsed = parse_telegram(&format!("noise {telegram}")).unwrap();
    assert_eq!(f(parsed.import_w), 0.421 * 1000.0);
    assert_eq!(f(parsed.export_w), 1.234 * 1000.0);
}

#[test]
fn values_are_trimmed_and_scaled_to_watts() {
    let telegram = build_telegram("/x\r\n1-0:1.7.0( 1.5 *kW)\r\n1-0:2.7.0(2e-3)\r\n");
    let parsed = parse_telegram(&telegram).unwrap();
    assert_eq!(f(parsed.import_w), 1500.0);
    assert_eq!(f(parsed.export_w), 2e-3 * 1000.0);
}

#[test]
fn rejects_missing_export() {
    let telegram = build_telegram("/x\r\n1-0:1.7.0(00.421*kW)\r\n");
    assert_eq!(parse_telegram(&telegram), Err(DsmrError::MissingObis(OBIS_EXPORT)));
}

#[test]
fn rejects_malformed_values() {
    for value in ["", "(", "()", "(abc)", "(*kW)", ")1(", "1"] {
        let telegram = build_telegram(&format!("/x\r\n1-0:1.7.0{value}"));
        assert_eq!(
            parse_telegram(&telegram),
            Err(DsmrError::MalformedObis(OBIS_IMPORT)),
            "{value}"
        );
    }
    let telegram = build_telegram("/x\r\n1-0:1.7.0(1)\r\n1-0:2.7.0(x)\r\n");
    assert_eq!(parse_telegram(&telegram), Err(DsmrError::MalformedObis(OBIS_EXPORT)));
}

#[test]
fn every_changed_character_is_detected() {
    let telegram = build_telegram("/x\r\n1-0:1.7.0(00.421*kW)\r\n1-0:2.7.0(01.234*kW)\r\n");
    let bang = telegram.rfind('!').unwrap();
    for i in 1..bang {
        for replacement in ["0", "Z"] {
            let mut changed = telegram.clone();
            changed.replace_range(i..i + 1, replacement);
            if changed != telegram {
                match parse_telegram(&changed) {
                    Err(DsmrError::CrcMismatch { computed, declared }) => {
                        assert_ne!(computed, declared, "{i}");
                        assert_eq!(declared, crc16_arc(telegram[..=bang].as_bytes()), "{i}");
                    }
                    other => panic!("{i}: {other:?}"),
                }
            }
        }
    }
}

#[test]
fn other_scripts_are_covered_by_their_bytes() {
    let telegram = build_telegram("/é€𝄞\r\n1-0:1.7.0(00.421*kW)\r\n1-0:2.7.0(01.234*kW)\r\n");
    assert!(parse_telegram(&telegram).is_ok());
}
