use dsmr_sma_limiter::binary64::Binary64;
use dsmr_sma_limiter::config::{RegisterSpec, RegisterType};
use dsmr_sma_limiter::modbus_client::{
    classify_exception, decode_words, encode_words, is_not_implemented_sentinel, read_scaled,
    unwrap_modbus_result, words_of_u32, ExceptionCode, ModbusIoError,
};

fn n(x: f64) -> Binary64 {
    Binary64::from_bits(x.to_bits())
}

fn f(x: Binary64) -> f64 {
    f64::from_bits(x.to_bits())
}

#[test]
fn decode_s32_negative() {
    // -1 as S32 big-endian words: 0xFFFF, 0xFFFF.
    let words = [0xFFFFu16, 0xFFFFu16];
    assert_eq!(decode_words(&words, RegisterType::S32), -1);
}

#[test]
fn decode_s32_positive() {
    // 70000 = 0x00011170
    let words = [0x0001u16, 0x1170u16];
    assert_eq!(decode_words(&words, RegisterType::S32), 70000);
}

#[test]
fn encode_decode_roundtrip_s32() {
    let encoded = encode_words(-2500, RegisterType::S32);
    assert_eq!(decode_words(&encoded, RegisterType::S32), -2500);
}

#[test]
fn decode_u16() {
    assert_eq!(decode_words(&[500], RegisterType::U16), 500);
}

#[test]
fn decode_s16_negative() {
    assert_eq!(decode_words(&[0xFFFF], RegisterType::S16), -1);
}

#[test]
fn exception_03_and_04_classified_as_not_armed() {
    assert!(matches!(
        classify_exception(ExceptionCode::IllegalDataValue),
        ModbusIoError::NotArmed(_)
    ));
    assert!(matches!(
        classify_exception(ExceptionCode::ServerDeviceFailure),
        ModbusIoError::NotArmed(_)
    ));
}

#[test]
fn other_exceptions_not_classified_as_not_armed() {
    assert!(matches!(
        classify_exception(ExceptionCode::IllegalFunction),
        ModbusIoError::Exception(_)
    ));
}

#[test]
fn s32_not_implemented_sentinel_detected() {
    // 0x80000000 as S32 is i32::MIN.
    let words = [0x8000u16, 0x0000u16];
    let raw = decode_words(&words, RegisterType::S32);
    assert_eq!(raw, i32::MIN as i64);
    assert!(is_not_implemented_sentinel(raw, RegisterType::S32));
}

#[test]
fn u32_not_implemented_sentinel_detected() {
    let words = [0xFFFFu16, 0xFFFFu16];
    let raw = decode_words(&words, RegisterType::U32);
    assert_eq!(raw, u32::MAX as i64);
    assert!(is_not_implemented_sentinel(raw, RegisterType::U32));
}

#[test]
fn s16_not_implemented_sentinel_detected() {
    let raw = decode_words(&[0x8000], RegisterType::S16);
    assert!(is_not_implemented_sentinel(raw, RegisterType::S16));
}

#[test]
fn u16_not_implemented_sentinel_detected() {
    let raw = decode_words(&[0xFFFF], RegisterType::U16);
    assert!(is_not_implemented_sentinel(raw, RegisterType::U16));
}

#[test]
fn ordinary_values_not_flagged_as_sentinel() {
    assert!(!is_not_implemented_sentinel(-1, RegisterType::S32));
    assert!(!is_not_implemented_sentinel(0, RegisterType::S32));
    assert!(!is_not_implemented_sentinel(i32::MAX as i64, RegisterType::S32));
    assert!(!is_not_implemented_sentinel(0, RegisterType::U32));
    assert!(!is_not_implemented_sentinel((u32::MAX - 1) as i64, RegisterType::U32));
}

#[test]
fn words_are_written_most_significant_first() {
    assert_eq!(encode_words(70000, RegisterType::S32), vec![0x0001, 0x1170]);
    assert_eq!(encode_words(70000, RegisterType::U32), vec![0x0001, 0x1170]);
    assert_eq!(encode_words(-1, RegisterType::U32), vec![0xFFFF, 0xFFFF]);
    assert_eq!(encode_words(70000, RegisterType::U16), vec![0x1170]);
    assert_eq!(encode_words(-2, RegisterType::S16), vec![0xFFFE]);
    assert_eq!(words_of_u32(802), vec![0, 802]);
    assert_eq!(words_of_u32(0x1234_5678), vec![0x1234, 0x5678]);
}

#[test]
fn registers_take_one_or_two_words() {
    assert_eq!(RegisterType::U16.word_count(), 1);
    assert_eq!(RegisterType::S16.word_count(), 1);
    assert_eq!(RegisterType::U32.word_count(), 2);
    assert_eq!(RegisterType::S32.word_count(), 2);
}

#[test]
fn words_read_back_as_written() {
    for raw in [0, 1, -1, 12345, -32768, 32767] {
        let words = encode_words(raw, RegisterType::S16);
        assert_eq!(decode_words(&words, RegisterType::S16), raw as i64);
    }
    for raw in [0, 1, -1, i32::MIN, i32::MAX, -70000] {
        let words = encode_words(raw, RegisterType::S32);
        assert_eq!(decode_words(&words, RegisterType::S32), raw as i64);
        let words = encode_words(raw, RegisterType::U32);
        assert_eq!(decode_words(&words, RegisterType::U32), raw as u32 as i64);
    }
}

#[test]
fn readings_are_scaled() {
    let spec = RegisterSpec { address: 41197, reg_type: RegisterType::U32, scale: n(0.01) };
    let w = read_scaled(&[0, 6500], &spec).unwrap();
    assert_eq!(f(w), 6500.0 * 0.01);
    let spec = RegisterSpec { address: 30775, reg_type: RegisterType::S32, scale: n(1.0) };
    assert_eq!(f(read_scaled(&[0xFFFF, 0xFFFE], &spec).unwrap()), -2.0);
}

#[test]
fn sentinel_readings_are_errors() {
    let spec = RegisterSpec { address: 30775, reg_type: RegisterType::S32, scale: n(1.0) };
    match read_scaled(&[0x8000, 0], &spec) {
        Err(ModbusIoError::NotImplemented { address, raw }) => {
            assert_eq!(address, 30775);
            assert_eq!(raw, i32::MIN as i64);
        }
        other => panic!("{other:?}"),
    }
}

#[test]
fn outcomes_of_requests() {
    assert!(matches!(unwrap_modbus_result(Ok(Ok(7))), Ok(7)));
    assert!(matches!(
        unwrap_modbus_result::<()>(Ok(Err(ExceptionCode::IllegalDataValue))),
        Err(ModbusIoError::NotArmed(ExceptionCode::IllegalDataValue))
    ));
    assert!(matches!(
        unwrap_modbus_result::<()>(Ok(Err(ExceptionCode::Custom(9)))),
        Err(ModbusIoError::Exception(ExceptionCode::Custom(9)))
    ));
    match unwrap_modbus_result::<()>(Err("broken pipe".to_string())) {
        Err(ModbusIoError::Transport(cause)) => assert_eq!(cause, "broken pipe"),
        other => panic!("{other:?}"),
    }
}
