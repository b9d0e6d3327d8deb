//! Registers on the wire, and what the inverter's replies mean.

use crate::binary64::arith;
use crate::binary64::closest;
use crate::binary64::whole;
use crate::binary64::Binary64;
use crate::config::{RegisterSpec, RegisterType};
use vstd::arithmetic::power2::*;
use vstd::prelude::*;

verus! {

/// A Modbus exception that the device answered with.
#[derive(Clone, Copy, Debug, PartialEq, Eq, Structural)]
pub enum ExceptionCode {
    IllegalFunction,
    IllegalDataAddress,
    IllegalDataValue,
    ServerDeviceFailure,
    Acknowledge,
    ServerDeviceBusy,
    MemoryParityError,
    GatewayPathUnavailable,
    GatewayTargetDevice,
    Custom(u8),
}

/// Why a register could not be read or written. The underlying cause of a
/// network failure is kept as text.
#[derive(Debug)]
pub enum ModbusIoError {
    Resolve { host: String, source: String },
    NoAddress(String),
    Connect(String),
    Transport(String),
    NotArmed(ExceptionCode),
    Exception(ExceptionCode),
    NotImplemented { address: u16, raw: i64 },
}

/// Exceptions 03 (illegal data value) and 04 (server device failure) are taken
/// as a missing prerequisite, such as the wrong operating mode.
pub open spec fn means_not_armed(code: ExceptionCode) -> bool {
    code is IllegalDataValue || code is ServerDeviceFailure
}

pub fn classify_exception(code: ExceptionCode) -> (r: ModbusIoError)
    ensures
        r == (if means_not_armed(code) {
            ModbusIoError::NotArmed(code)
        } else {
            ModbusIoError::Exception(code)
        }),
{
    match code {
        ExceptionCode::IllegalDataValue | ExceptionCode::ServerDeviceFailure => {
            ModbusIoError::NotArmed(code)
        },
        other => ModbusIoError::Exception(other),
    }
}

/// Turns the outcome of a request into one `Result`: the value, the exception
/// that the device answered with, or the failure on the way.
pub fn unwrap_modbus_result<T>(outcome: Result<Result<T, ExceptionCode>, String>) -> (r: Result<
    T,
    ModbusIoError,
>)
    ensures
        match outcome {
            Ok(Ok(v)) => r == Ok::<T, ModbusIoError>(v),
            Ok(Err(code)) => r == Err::<T, ModbusIoError>(
                if means_not_armed(code) {
                    ModbusIoError::NotArmed(code)
                } else {
                    ModbusIoError::Exception(code)
                },
            ),
            Err(cause) => r == Err::<T, ModbusIoError>(ModbusIoError::Transport(cause)),
        },
{
    match outcome {
        Ok(Ok(v)) => Ok(v),
        Ok(Err(code)) => Err(classify_exception(code)),
        Err(cause) => Err(ModbusIoError::Transport(cause)),
    }
}

/// The raw integers that a register can hold.
pub open spec fn in_range(raw: int, reg_type: RegisterType) -> bool {
    match reg_type {
        RegisterType::U16 => 0 <= raw <= 0xFFFF,
        RegisterType::S16 => -0x8000 <= raw <= 0x7FFF,
        RegisterType::U32 => 0 <= raw <= 0xFFFF_FFFF,
        RegisterType::S32 => -0x8000_0000 <= raw <= 0x7FFF_FFFF,
    }
}

/// How many values a register can hold.
pub open spec fn modulus(reg_type: RegisterType) -> int {
    match reg_type {
        RegisterType::U16 | RegisterType::S16 => 0x1_0000,
        RegisterType::U32 | RegisterType::S32 => 0x1_0000_0000,
    }
}

/// The number that the words write, the most significant word first.
pub open spec fn unsigned_value(words: Seq<u16>, reg_type: RegisterType) -> int {
    match reg_type {
        RegisterType::U16 | RegisterType::S16 => words[0] as int,
        RegisterType::U32 | RegisterType::S32 => words[0] * 0x1_0000 + words[1],
    }
}

pub open spec fn is_signed(reg_type: RegisterType) -> bool {
    reg_type is S16 || reg_type is S32
}

/// The raw value of a register: in two's complement if the type is signed.
pub open spec fn decoded(words: Seq<u16>, reg_type: RegisterType) -> int {
    let v = unsigned_value(words, reg_type);
    if is_signed(reg_type) && 2 * v >= modulus(reg_type) {
        v - modulus(reg_type)
    } else {
        v
    }
}

/// The "not implemented" value: the type's minimum if signed, all ones if
/// unsigned.
pub open spec fn sentinel(reg_type: RegisterType) -> int {
    match reg_type {
        RegisterType::U16 => 0xFFFF,
        RegisterType::S16 => -0x8000,
        RegisterType::U32 => 0xFFFF_FFFF,
        RegisterType::S32 => -0x8000_0000,
    }
}

pub fn is_not_implemented_sentinel(raw: i64, reg_type: RegisterType) -> (r: bool)
    ensures
        r == (raw == sentinel(reg_type)),
{
    match reg_type {
        RegisterType::U16 => raw == u16::MAX as i64,
        RegisterType::S16 => raw == i16::MIN as i64,
        RegisterType::U32 => raw == u32::MAX as i64,
        RegisterType::S32 => raw == i32::MIN as i64,
    }
}

pub fn decode_words(words: &[u16], reg_type: RegisterType) -> (raw: i64)
    requires
        words@.len() >= reg_type.words(),
    ensures
        raw == decoded(words@, reg_type),
        in_range(raw as int, reg_type),
{
    match reg_type {
        RegisterType::U16 => words[0] as i64,
        RegisterType::S16 => {
            let v: i64 = words[0] as i64;
            if v >= 0x8000 {
                v - 0x1_0000
            } else {
                v
            }
        },
        RegisterType::U32 => words[0] as i64 * 0x1_0000 + words[1] as i64,
        RegisterType::S32 => {
            let v: i64 = words[0] as i64 * 0x1_0000 + words[1] as i64;
            if v >= 0x8000_0000 {
                v - 0x1_0000_0000
            } else {
                v
            }
        },
    }
}

/// The words of a raw value, cut to the width of the register.
pub open spec fn encoded(raw: int, reg_type: RegisterType) -> Seq<u16> {
    let v = raw % modulus(reg_type);
    match reg_type {
        RegisterType::U16 | RegisterType::S16 => seq![v as u16],
        RegisterType::U32 | RegisterType::S32 => seq![(v / 0x1_0000) as u16, (v % 0x1_0000) as u16],
    }
}

pub fn encode_words(raw: i32, reg_type: RegisterType) -> (words: Vec<u16>)
    ensures
        words@ == encoded(raw as int, reg_type),
        words@.len() == reg_type.words(),
{
    // The two's complement of the value.
    let v: u32 = if raw < 0 {
        (raw as i64 + 0x1_0000_0000) as u32
    } else {
        raw as u32
    };
    match reg_type {
        RegisterType::U16 | RegisterType::S16 => vec![(v % 0x1_0000) as u16],
        RegisterType::U32 | RegisterType::S32 => words_of_u32(v),
    }
}

/// The two words of a `u32`, the most significant first.
pub fn words_of_u32(value: u32) -> (words: Vec<u16>)
    ensures
        words@ == seq![(value / 0x1_0000) as u16, (value % 0x1_0000) as u16],
        decoded(words@, RegisterType::U32) == value,
{
    vec![(value / 0x1_0000) as u16, (value % 0x1_0000) as u16]
}

/// The scaled value of a register that was read as `words`.
pub open spec fn scaled_reading(words: Seq<u16>, spec: RegisterSpec) -> Result<
    Binary64,
    ModbusIoError,
> {
    let raw = decoded(words, spec.reg_type);
    if raw == sentinel(spec.reg_type) {
        Err(ModbusIoError::NotImplemented { address: spec.address, raw: raw as i64 })
    } else {
        Ok(arith::product(arith::integer(raw), spec.scale))
    }
}

/// Decodes and scales a reading. Fails on the "not implemented" sentinel.
pub fn read_scaled(words: &[u16], spec: &RegisterSpec) -> (r: Result<Binary64, ModbusIoError>)
    requires
        words@.len() >= spec.reg_type.words(),
    ensures
        r == scaled_reading(words@, *spec),
{
    let raw: i64 = decode_words(words, spec.reg_type);
    if is_not_implemented_sentinel(raw, spec.reg_type) {
        return Err(ModbusIoError::NotImplemented { address: spec.address, raw });
    }
    Ok(Binary64::from_i64(raw).times(spec.scale))
}

/// What is written to a register reads back as the same value.
pub proof fn law_write_then_read(raw: int, reg_type: RegisterType)
    requires
        in_range(raw, reg_type),
    ensures
        decoded(encoded(raw, reg_type), reg_type) == raw,
{
}

/// A value beyond the register's range reads back as its remainder.
pub proof fn law_write_wraps(raw: int, reg_type: RegisterType)
    ensures
        in_range(decoded(encoded(raw, reg_type), reg_type), reg_type),
        (decoded(encoded(raw, reg_type), reg_type) - raw) % modulus(reg_type) == 0,
{
}

/// What was read from a register encodes to the same words again.
pub proof fn law_read_then_write(words: Seq<u16>, reg_type: RegisterType)
    requires
        words.len() == reg_type.words(),
    ensures
        encoded(decoded(words, reg_type), reg_type) == words,
{
}

/// No other words than those of the sentinel are refused.
pub proof fn law_sentinel_words(words: Seq<u16>, spec: RegisterSpec)
    requires
        words.len() == spec.reg_type.words(),
    ensures
        scaled_reading(words, spec) is Err <==> words == encoded(
            sentinel(spec.reg_type),
            spec.reg_type,
        ),
{
    law_read_then_write(words, spec.reg_type);
    law_write_then_read(sentinel(spec.reg_type), spec.reg_type);
}

/// What a register holds is the number that its words write, the first word
/// counting 65536 times as much, less the number of values of a signed register
/// if it is in the upper half.
pub proof fn law_decoded(words: Seq<u16>)
    ensures
        words.len() >= 1 ==> decoded(words, RegisterType::U16) == words[0],
        words.len() >= 1 ==> decoded(words, RegisterType::S16) == if words[0] < 32_768 {
            words[0] as int
        } else {
            words[0] - 65_536
        },
        words.len() >= 2 ==> decoded(words, RegisterType::U32) == 65_536 * words[0] + words[1],
        words.len() >= 2 ==> decoded(words, RegisterType::S32) == if words[0] < 32_768 {
            65_536 * words[0] + words[1]
        } else {
            65_536 * words[0] + words[1] - 4_294_967_296
        },
{
}

/// The sentinel is the end of the range: the smallest value of a signed
/// register, the largest of an unsigned one.
pub proof fn law_sentinel_ends_the_range(words: Seq<u16>, reg_type: RegisterType)
    requires
        words.len() == (if reg_type is U16 || reg_type is S16 {
            1int
        } else {
            2
        }),
    ensures
        reg_type is S16 || reg_type is S32 ==> sentinel(reg_type) <= decoded(words, reg_type),
        reg_type is U16 || reg_type is U32 ==> decoded(words, reg_type) <= sentinel(reg_type),
        decoded(words, reg_type) == sentinel(reg_type) <==> words == (match reg_type {
            RegisterType::U16 => seq![0xFFFFu16],
            RegisterType::S16 => seq![0x8000u16],
            RegisterType::U32 => seq![0xFFFFu16, 0xFFFFu16],
            RegisterType::S32 => seq![0x8000u16, 0u16],
        }),
{
    let end = match reg_type {
        RegisterType::U16 => seq![0xFFFFu16],
        RegisterType::S16 => seq![0x8000u16],
        RegisterType::U32 => seq![0xFFFFu16, 0xFFFFu16],
        RegisterType::S32 => seq![0x8000u16, 0u16],
    };
    if decoded(words, reg_type) == sentinel(reg_type) {
        assert(words =~= end);
    } else if words == end {
        assert(words[0] == end[0]);
    }
}

/// Every register reads as the number that its words write times its scale,
/// rounded once: no number is closer. With a whole scale and a product below
/// 2^53 it is exact. Only the sentinel is an error, and it says which register
/// it was and what was read.
pub proof fn law_reading_is_scaled(words: Seq<u16>, spec: RegisterSpec, k: int)
    requires
        words.len() == spec.reg_type.words(),
    ensures
        scaled_reading(words, spec) is Err <==> decoded(words, spec.reg_type) == sentinel(
            spec.reg_type,
        ),
        scaled_reading(words, spec) matches Err(e) ==> e == (ModbusIoError::NotImplemented {
            address: spec.address,
            raw: sentinel(spec.reg_type) as i64,
        }),
        spec.scale.finite() ==> (scaled_reading(words, spec) matches Ok(x) ==> closest::closest(
            x,
            decoded(words, spec.reg_type) * spec.scale.value(),
            1,
        )),
        spec.scale.is_integer(k) && whole::is_small(decoded(words, spec.reg_type) * k) ==> (
        scaled_reading(words, spec) matches Ok(x) ==> x.is_integer(
            decoded(words, spec.reg_type) * k,
        )),
        spec.scale.nan() ==> (scaled_reading(words, spec) matches Ok(x) ==> x.nan()),
        spec.scale.infinite() ==> (scaled_reading(words, spec) matches Ok(x) ==> !x.finite()),
{
    let raw = decoded(words, spec.reg_type);
    let n = arith::integer(raw);
    let one = pow2(1074) as int;
    whole::lemma_integer(raw);
    lemma_pow2_pos(1074);
    if spec.scale.finite() {
        let x = arith::product(n, spec.scale);
        let y = raw * spec.scale.value();
        closest::law_product_is_closest(n, spec.scale);
        assert(n.value() * spec.scale.value() == y * one) by (nonlinear_arith)
            requires
                n.value() == raw * one,
                y == raw * spec.scale.value(),
        ;
        closest::lemma_cancel(x, y, one);
    }
    if spec.scale.is_integer(k) && whole::is_small(raw * k) {
        whole::law_products_are_exact(n, spec.scale, raw, k);
    }
    closest::law_special_results(n, spec.scale);
    closest::law_special_results(spec.scale, n);
}

/// The words that are written for a value, as a number, are that value up to a
/// multiple of what the register can count.
pub proof fn law_encoded(raw: int, reg_type: RegisterType)
    ensures
        reg_type is U16 || reg_type is S16 ==> encoded(raw, reg_type).len() == 1 && (encoded(
            raw,
            reg_type,
        )[0] - raw) % 65_536 == 0,
        reg_type is U32 || reg_type is S32 ==> encoded(raw, reg_type).len() == 2 && (65_536
            * encoded(raw, reg_type)[0] + encoded(raw, reg_type)[1] - raw) % 4_294_967_296 == 0,
        reg_type.words() == encoded(raw, reg_type).len(),
{
}

/// Of all exceptions, illegal data value and server device failure alone mean
/// that the device is not armed.
pub proof fn law_not_armed(code: ExceptionCode)
    ensures
        means_not_armed(code) <==> code == ExceptionCode::IllegalDataValue || code
            == ExceptionCode::ServerDeviceFailure,
{
}

} // verus!
