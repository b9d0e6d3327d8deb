//! Direct-algebra setpoint computation. No PID: corrected fresh every cycle.

use crate::binary64::arith;
use crate::binary64::closest;
use crate::binary64::error;
use crate::binary64::model;
use crate::binary64::whole;
use crate::binary64::Binary64;
use crate::config::{RegisterSpec, RegisterType, SetpointEncoding};
use crate::modbus_client;
use vstd::arithmetic::power2::*;
use vstd::math::*;
use vstd::prelude::*;

verus! {

#[derive(Clone, Copy, Debug, PartialEq)]
pub struct ControlInput {
    pub import_w: Binary64,
    pub export_w: Binary64,
    pub inverter_ac_w: Binary64,
    pub export_limit_w: Binary64,
    pub inverter_wmax_w: Binary64,
}

#[derive(Clone, Copy, Debug, PartialEq)]
pub struct ControlOutput {
    pub house_load_w: Binary64,
    pub setpoint_w: Binary64,
}

/// Grid import minus export plus inverter AC power.
pub open spec fn house_load(input: ControlInput) -> Binary64 {
    arith::sum(arith::difference(input.import_w, input.export_w), input.inverter_ac_w)
}

/// House load plus the export limit, before it is cut to the inverter's range.
pub open spec fn raw_setpoint(input: ControlInput) -> Binary64 {
    arith::sum(house_load(input), input.export_limit_w)
}

/// The setpoint, cut to the range from zero to `WMax`.
pub open spec fn setpoint(input: ControlInput) -> Binary64 {
    arith::clamped(raw_setpoint(input), arith::integer(0), input.inverter_wmax_w)
}

/// Whether `wmax` bounds a range of setpoints that starts at zero.
pub open spec fn usable_wmax(wmax: Binary64) -> bool {
    !wmax.nan() && wmax.value() >= 0
}

/// Whether `wmax` bounds a range of setpoints that starts at zero.
pub fn is_usable_wmax(wmax: Binary64) -> (r: bool)
    ensures
        r == usable_wmax(wmax),
{
    let zero: Binary64 = Binary64::from_i64(0);
    proof {
        lemma_integer_zero();
    }
    !wmax.is_nan() && !wmax.is_less(zero)
}

/// House load is grid import minus export plus inverter AC power. The
/// setpoint is house load plus the export limit, clamped to [0, WMax].
pub fn compute(input: ControlInput) -> (r: ControlOutput)
    requires
        usable_wmax(input.inverter_wmax_w),
    ensures
        r.house_load_w == house_load(input),
        r.setpoint_w == setpoint(input),
{
    let house_load_w: Binary64 = input.import_w.minus(input.export_w).plus(input.inverter_ac_w);
    let raw_setpoint: Binary64 = house_load_w.plus(input.export_limit_w);
    let zero: Binary64 = Binary64::from_i64(0);
    proof {
        lemma_integer_zero();
    }
    let setpoint_w: Binary64 = raw_setpoint.clamp_to(zero, input.inverter_wmax_w);
    ControlOutput { house_load_w, setpoint_w }
}

/// `setpoint_w` as a percentage of `wmax_w`, or zero if that is not positive.
pub open spec fn percent_of(setpoint_w: Binary64, wmax_w: Binary64) -> Binary64 {
    if arith::less(arith::integer(0), wmax_w) {
        arith::product(arith::quotient(setpoint_w, wmax_w), arith::integer(100))
    } else {
        arith::integer(0)
    }
}

/// `setpoint_w` as a percentage of `wmax_w`, or zero if that is not positive.
fn percent(setpoint_w: Binary64, wmax_w: Binary64) -> (r: Binary64)
    ensures
        r == percent_of(setpoint_w, wmax_w),
{
    let zero: Binary64 = Binary64::from_i64(0);
    if zero.is_less(wmax_w) {
        setpoint_w.divided_by(wmax_w).times(Binary64::from_i64(100))
    } else {
        zero
    }
}

/// Converts watts to a raw percentage of Inverter.WMax, `scale` being the
/// register unit in percent.
pub fn watts_to_percent_scaled(setpoint_w: Binary64, wmax_w: Binary64, scale: Binary64) -> (r: i32)
    ensures
        r == arith::saturated_i32(arith::quotient(percent_of(setpoint_w, wmax_w), scale)),
{
    percent(setpoint_w, wmax_w).divided_by(scale).round_to_i32()
}

/// Converts watts to a raw register value, `scale` being the register unit
/// in watts.
pub fn watts_to_scaled(setpoint_w: Binary64, scale: Binary64) -> (r: i32)
    ensures
        r == arith::saturated_i32(arith::quotient(setpoint_w, scale)),
{
    setpoint_w.divided_by(scale).round_to_i32()
}

/// A setpoint in the unit of its register.
pub open spec fn register_value(
    encoding: SetpointEncoding,
    setpoint_w: Binary64,
    wmax_w: Binary64,
    scale: Binary64,
) -> Binary64 {
    match encoding {
        SetpointEncoding::Watts => arith::quotient(setpoint_w, scale),
        SetpointEncoding::Percent => arith::quotient(percent_of(setpoint_w, wmax_w), scale),
    }
}

/// The raw value that tells the inverter a setpoint.
pub open spec fn raw_value(
    encoding: SetpointEncoding,
    setpoint_w: Binary64,
    wmax_w: Binary64,
    scale: Binary64,
) -> i32 {
    arith::saturated_i32(register_value(encoding, setpoint_w, wmax_w, scale))
}

/// The raw value that tells the inverter a setpoint.
pub fn setpoint_raw(
    encoding: SetpointEncoding,
    setpoint_w: Binary64,
    wmax_w: Binary64,
    scale: Binary64,
) -> (r: i32)
    ensures
        r == raw_value(encoding, setpoint_w, wmax_w, scale),
{
    match encoding {
        SetpointEncoding::Watts => watts_to_scaled(setpoint_w, scale),
        SetpointEncoding::Percent => watts_to_percent_scaled(setpoint_w, wmax_w, scale),
    }
}

/// The smallest raw value that is written to a register.
pub open spec fn lowest(reg_type: RegisterType) -> int {
    match reg_type {
        RegisterType::U16 | RegisterType::U32 => 0,
        RegisterType::S16 => -0x8000,
        RegisterType::S32 => -0x8000_0000,
    }
}

/// The largest raw value that is written to a register. Raw values are `i32`.
pub open spec fn highest(reg_type: RegisterType) -> int {
    match reg_type {
        RegisterType::U16 => 0xFFFF,
        RegisterType::S16 => 0x7FFF,
        RegisterType::U32 | RegisterType::S32 => 0x7FFF_FFFF,
    }
}

/// Whether a number in the unit of a register rounds to a raw value within its
/// range.
pub open spec fn fits(x: Binary64, reg_type: RegisterType) -> bool {
    &&& x.finite()
    &&& lowest(reg_type) <= arith::nearest_integer(x) <= highest(reg_type)
}

/// The raw value that tells the inverter a setpoint, if the register can hold
/// it.
pub fn raw_for_register(
    encoding: SetpointEncoding,
    setpoint_w: Binary64,
    wmax_w: Binary64,
    register: &RegisterSpec,
) -> (r: Option<i32>)
    ensures
        r == (if fits(
            register_value(encoding, setpoint_w, wmax_w, register.scale),
            register.reg_type,
        ) {
            Some(raw_value(encoding, setpoint_w, wmax_w, register.scale))
        } else {
            None
        }),
{
    let x: Binary64 = match encoding {
        SetpointEncoding::Watts => setpoint_w.divided_by(register.scale),
        SetpointEncoding::Percent => percent(setpoint_w, wmax_w).divided_by(register.scale),
    };
    let low: i32 = match register.reg_type {
        RegisterType::U16 | RegisterType::U32 => 0,
        RegisterType::S16 => -0x8000,
        RegisterType::S32 => i32::MIN,
    };
    let high: i32 = match register.reg_type {
        RegisterType::U16 => 0xFFFF,
        RegisterType::S16 => 0x7FFF,
        RegisterType::U32 | RegisterType::S32 => i32::MAX,
    };
    match x.round_within(low, high) {
        Some(_) => Some(setpoint_raw(encoding, setpoint_w, wmax_w, register.scale)),
        None => None,
    }
}

/// Whether what was read from the meter and the inverter is finite.
pub open spec fn finite_readings(input: ControlInput) -> bool {
    &&& input.import_w.finite()
    &&& input.export_w.finite()
    &&& input.inverter_ac_w.finite()
}

/// Whether a setpoint may be used: it and the readings that it was computed from
/// are finite. The export limit may be infinite: the setpoint is then `WMax`, or
/// zero.
pub open spec fn is_sound(input: ControlInput) -> bool {
    finite_readings(input) && setpoint(input).finite()
}

/// Whether what was read from the meter and the inverter is finite.
pub fn has_finite_readings(input: &ControlInput) -> (r: bool)
    ensures
        r == finite_readings(*input),
{
    input.import_w.is_finite() && input.export_w.is_finite() && input.inverter_ac_w.is_finite()
}

pub proof fn lemma_integer_zero()
    ensures
        arith::integer(0) == model::zero(false),
        arith::integer(0).value() == 0,
        !arith::integer(0).nan(),
{
    model::lemma_zero(1);
    assert(0 * model::one() == 0);
}

/// Whether house load and export limit add up to a number: the limit is one,
/// and finite unless house load is.
pub open spec fn limit_applies(input: ControlInput) -> bool {
    !input.export_limit_w.nan() && (input.export_limit_w.finite() || house_load(input).finite())
}

/// The sum of finite readings may overflow, but it is a number.
proof fn lemma_sum_is_a_number(input: ControlInput)
    requires
        finite_readings(input),
        limit_applies(input),
    ensures
        !raw_setpoint(input).nan(),
{
    let back = arith::negation(input.export_w);
    assert(back.unsigned() == input.export_w.unsigned());
    error::law_sum_is_a_number(input.import_w, back);
    let grid = arith::difference(input.import_w, input.export_w);
    error::law_sum_is_a_number(grid, input.inverter_ac_w);
    error::law_sum_is_a_number(house_load(input), input.export_limit_w);
}

/// For finite readings the setpoint is a number from zero to `WMax`.
pub proof fn law_setpoint_in_range(input: ControlInput)
    requires
        usable_wmax(input.inverter_wmax_w),
        finite_readings(input),
        limit_applies(input),
    ensures
        !setpoint(input).nan(),
        0 <= setpoint(input).value() <= input.inverter_wmax_w.value(),
{
    lemma_integer_zero();
    lemma_sum_is_a_number(input);
}

/// For finite readings and a finite `WMax` the setpoint may be used.
pub proof fn law_finite_readings_are_sound(input: ControlInput)
    requires
        usable_wmax(input.inverter_wmax_w),
        input.inverter_wmax_w.finite(),
        finite_readings(input),
        limit_applies(input),
    ensures
        is_sound(input),
{
    law_setpoint_in_range(input);
    let x = setpoint(input);
    let wmax = input.inverter_wmax_w;
    if !x.finite() {
        model::lemma_magnitude_increases(wmax.unsigned(), x.unsigned());
    }
}

/// Without a limit the setpoint is `WMax`, and with none of the export allowed
/// at all it is zero, as long as house load is finite.
pub proof fn law_infinite_limit(input: ControlInput)
    requires
        usable_wmax(input.inverter_wmax_w),
        house_load(input).finite(),
        input.export_limit_w.infinite(),
    ensures
        input.export_limit_w.negative() ==> setpoint(input).value() == 0,
        !input.export_limit_w.negative() ==> setpoint(input).value()
            == input.inverter_wmax_w.value(),
{
    lemma_integer_zero();
    let limit = input.export_limit_w;
    let wmax = input.inverter_wmax_w;
    assert(raw_setpoint(input) == limit);
    if wmax.finite() {
        model::lemma_magnitude_increases(wmax.unsigned(), limit.unsigned());
    }
    model::lemma_magnitude_increases(0, limit.unsigned());
}

/// For finite readings the setpoint never exceeds house load plus the export
/// limit, unless that is negative and the setpoint is zero.
pub proof fn law_setpoint_within_limit(input: ControlInput)
    requires
        usable_wmax(input.inverter_wmax_w),
        finite_readings(input),
        limit_applies(input),
    ensures
        setpoint(input).value() <= raw_setpoint(input).value() || setpoint(input).value() == 0
            && raw_setpoint(input).value() < 0,
{
    lemma_integer_zero();
    lemma_sum_is_a_number(input);
}

/// For readings in whole watts the arithmetic is exact: the setpoint is house
/// load plus the export limit, cut to the range from zero to `WMax`. Once the
/// inverter follows it, the house exports no more than the limit, or nothing
/// is produced at all.
pub proof fn law_export_is_capped(
    input: ControlInput,
    import: int,
    export: int,
    ac: int,
    limit: int,
    wmax: int,
)
    requires
        input.import_w.is_integer(import),
        input.export_w.is_integer(export),
        input.inverter_ac_w.is_integer(ac),
        input.export_limit_w.is_integer(limit),
        input.inverter_wmax_w.is_integer(wmax),
        wmax >= 0,
        whole::is_small(import - export),
        whole::is_small(import - export + ac),
        whole::is_small(import - export + ac + limit),
    ensures
        ({
            let load = import - export + ac;
            let set = if load + limit < 0 {
                0
            } else if load + limit > wmax {
                wmax
            } else {
                load + limit
            };
            &&& house_load(input).is_integer(load)
            &&& setpoint(input).is_integer(set)
            &&& set - load <= limit || set == 0
        }),
{
    let one = model::one();
    lemma_pow2_pos(1074);
    lemma_integer_zero();
    whole::law_differences_are_exact(input.import_w, input.export_w, import, export);
    let grid = arith::difference(input.import_w, input.export_w);
    whole::law_sums_are_exact(grid, input.inverter_ac_w, import - export, ac);
    let load = import - export + ac;
    whole::law_sums_are_exact(house_load(input), input.export_limit_w, load, limit);
    let raw = load + limit;
    assert(0 * one == 0);
    assert(raw < 0 <==> raw * one < 0) by (nonlinear_arith)
        requires
            one > 0,
    ;
    assert(raw > wmax <==> raw * one > wmax * one) by (nonlinear_arith)
        requires
            one > 0,
    ;
}

/// For any readings of at most 2^k units (2^1074 units are a watt), the sum that
/// is cut to the inverter's range differs from the exact one by no more than
/// 2^(k - 50) units. So the setpoint exceeds house load plus the export limit by
/// no more than that, and falls short of it by no more than that unless `WMax`
/// cuts it.
pub proof fn law_export_is_capped_closely(input: ControlInput, k: nat)
    requires
        usable_wmax(input.inverter_wmax_w),
        input.import_w.finite(),
        input.export_w.finite(),
        input.inverter_ac_w.finite(),
        input.export_limit_w.finite(),
        53 <= k <= 2094,
        -pow2(k) <= input.import_w.value() <= pow2(k),
        -pow2(k) <= input.export_w.value() <= pow2(k),
        -pow2(k) <= input.inverter_ac_w.value() <= pow2(k),
        -pow2(k) <= input.export_limit_w.value() <= pow2(k),
    ensures
        ({
            let exact = input.import_w.value() - input.export_w.value()
                + input.inverter_ac_w.value() + input.export_limit_w.value();
            let slack = pow2((k - 50) as nat);
            let wmax = input.inverter_wmax_w.value();
            &&& exact - slack <= raw_setpoint(input).value() <= exact + slack
            &&& setpoint(input).value() <= exact + slack || setpoint(input).value() == 0
            &&& setpoint(input).value() >= exact - slack || setpoint(input).value() == wmax
            &&& 0 <= setpoint(input).value() <= wmax
        }),
{
    lemma_integer_zero();
    lemma_pow2_unfold(k + 1);
    lemma_pow2_unfold(k + 2);
    lemma_pow2_unfold(k + 3);
    lemma_pow2_unfold((k - 52) as nat);
    lemma_pow2_unfold((k - 51) as nat);
    lemma_pow2_unfold((k - 50) as nat);
    lemma_pow2_pos(k);
    error::law_difference_error(input.import_w, input.export_w, k + 1);
    let grid = arith::difference(input.import_w, input.export_w);
    error::law_sum_error(grid, input.inverter_ac_w, k + 2);
    error::law_sum_error(house_load(input), input.export_limit_w, k + 3);
}

/// A number that fits a register rounds to a raw value that the register holds,
/// and that reads back as it was written.
pub proof fn law_fitting_value_reads_back(x: Binary64, reg_type: RegisterType)
    requires
        fits(x, reg_type),
    ensures
        x.finite(),
        arith::saturated_i32(x) == arith::nearest_integer(x),
        modbus_client::in_range(arith::nearest_integer(x), reg_type),
        modbus_client::decoded(
            modbus_client::encoded(arith::saturated_i32(x) as int, reg_type),
            reg_type,
        ) == arith::nearest_integer(x),
{
    modbus_client::law_write_then_read(arith::nearest_integer(x), reg_type);
}

/// Which numbers bound a range of setpoints, and which fit a register, by their
/// values alone: zero or more, and what rounds to an integer within the range of
/// the register.
pub proof fn law_ranges(x: Binary64)
    ensures
        usable_wmax(x) <==> !x.nan() && x.value() >= 0,
        fits(x, RegisterType::U16) <==> !x.nan() && -1 * pow2(1074) < 2 * x.value() < 131_071
            * pow2(1074),
        fits(x, RegisterType::S16) <==> !x.nan() && -65_537 * pow2(1074) < 2 * x.value() < 65_535
            * pow2(1074),
        fits(x, RegisterType::U32) <==> !x.nan() && -1 * pow2(1074) < 2 * x.value()
            < 4_294_967_295 * pow2(1074),
        fits(x, RegisterType::S32) <==> !x.nan() && -4_294_967_297 * pow2(1074) < 2 * x.value()
            < 4_294_967_295 * pow2(1074),
{
    let one = pow2(1074) as int;
    let m = model::magnitude(x.unsigned()) as int;
    let q = (2 * m + one) / (2 * one);
    let rem = (2 * m + one) % (2 * one);
    lemma_pow2_pos(1074);
    vstd::arithmetic::div_mod::lemma_fundamental_div_mod(2 * m + one, 2 * one);
    assert(2 * m + one == (2 * one) * q + rem && 0 <= rem < 2 * one);
    assert((2 * one) * q == 2 * (q * one)) by (nonlinear_arith);
    assert(q >= 0) by (nonlinear_arith)
        requires
            2 * m + one == 2 * (q * one) + rem,
            rem < 2 * one,
            m >= 0,
            one > 0,
    ;
    lemma_bound(q, one, rem, m, 65_535);
    lemma_bound(q, one, rem, m, 32_767);
    lemma_bound(q, one, rem, m, 32_768);
    lemma_bound(q, one, rem, m, 2_147_483_647);
    lemma_bound(q, one, rem, m, 2_147_483_648);
    assert(q <= 0 <==> 2 * m < one) by (nonlinear_arith)
        requires
            2 * m + one == 2 * (q * one) + rem,
            0 <= rem < 2 * one,
            one > 0,
    ;
    assert(-1 * one == -one);
    assert(q <= 65_535 <==> 2 * m < 131_071 * one);
    assert(q <= 32_767 <==> 2 * m < 65_535 * one);
    assert(q <= 32_768 <==> 2 * m < 65_537 * one);
    assert(q <= 2_147_483_647 <==> 2 * m < 4_294_967_295 * one);
    assert(q <= 2_147_483_648 <==> 2 * m < 4_294_967_297 * one);
    assert(arith::nearest_integer(x) == if x.negative() {
        -q
    } else {
        q
    });
    if x.infinite() {
        closest::law_infinity(x);
    }
}

/// Where rounding ends at `k`.
proof fn lemma_bound(q: int, one: int, rem: int, m: int, k: int)
    requires
        2 * m + one == 2 * (q * one) + rem,
        0 <= rem < 2 * one,
        one > 0,
    ensures
        q <= k <==> 2 * m < (2 * k + 1) * one,
{
    assert(q <= k <==> 2 * m < (2 * k + 1) * one) by (nonlinear_arith)
        requires
            2 * m + one == 2 * (q * one) + rem,
            0 <= rem < 2 * one,
            one > 0,
    ;
}

/// The percentage is what it says: times `WMax` it gives a hundred times the
/// setpoint, up to three units in the last place. Of a `WMax` that is not
/// positive it is zero.
pub proof fn law_percentage(setpoint_w: Binary64, wmax_w: Binary64)
    requires
        setpoint_w.finite(),
    ensures
        wmax_w.finite() && wmax_w.value() > 0 && percent_of(setpoint_w, wmax_w).finite() ==> ({
            let p = percent_of(setpoint_w, wmax_w).value();
            0x20_0000_0000_0000 * abs(p * wmax_w.value() - 100 * (setpoint_w.value() * pow2(1074)))
                <= wmax_w.value() * (3 * abs(p) + 102 * 0x10_0000_0000_0000)
        }),
        wmax_w.finite() && wmax_w.value() > 0 ==> !percent_of(setpoint_w, wmax_w).nan(),
        wmax_w.nan() || wmax_w.value() <= 0 ==> percent_of(setpoint_w, wmax_w).value() == 0,
{
    let hundred = arith::integer(100);
    let one = pow2(1074) as int;
    let h: int = 0x10_0000_0000_0000;
    lemma_integer_zero();
    whole::lemma_integer(100);
    lemma_pow2_pos(1074);
    if wmax_w.finite() && wmax_w.value() > 0 {
        let quotient = arith::quotient(setpoint_w, wmax_w);
        closest::law_quotient_is_closest(setpoint_w, wmax_w);
        closest::law_special_results(quotient, hundred);
        if quotient.finite() {
            closest::law_product_is_closest(quotient, hundred);
        }
        if percent_of(setpoint_w, wmax_w).finite() {
            closest::law_product_error(quotient, hundred);
            closest::law_quotient_error(setpoint_w, wmax_w);
            let p = percent_of(setpoint_w, wmax_w).value();
            let q = quotient.value();
            let w = wmax_w.value();
            let s = setpoint_w.value();
            let a = p - 100 * q;
            let b = q * w - s * one;
            assert(p * one - q * (100 * one) == a * one) by (nonlinear_arith)
                requires
                    a == p - 100 * q,
            ;
            assert(2 * abs(a) * h <= abs(p) + h) by (nonlinear_arith)
                requires
                    2 * abs(a * one) * h <= one * (abs(p) + h),
                    one > 0,
                    h == 0x10_0000_0000_0000,
            ;
            lemma_percentage(p, q, w, s * one, h);
        }
    }
}

/// The errors of a quotient and of a product by a hundred add up.
proof fn lemma_percentage(p: int, q: int, w: int, s: int, h: int)
    requires
        w > 0,
        h == 0x10_0000_0000_0000,
        2 * abs(p - 100 * q) * h <= abs(p) + h,
        2 * abs(q * w - s) * h <= w * (abs(q) + h),
    ensures
        2 * h * abs(p * w - 100 * s) <= w * (3 * abs(p) + 102 * h),
{
    let a = p - 100 * q;
    let b = q * w - s;
    let t = p * w - 100 * s;
    assert(t == w * a + 100 * b) by (nonlinear_arith)
        requires
            t == p * w - 100 * s,
            a == p - 100 * q,
            b == q * w - s,
    ;
    assert(abs(w * a) == w * abs(a)) by (nonlinear_arith)
        requires
            w > 0,
    ;
    assert(abs(t) <= w * abs(a) + 100 * abs(b));
    assert(100 * abs(q) <= abs(p) + abs(a));
    let big_p = abs(p) as int;
    let big_q = abs(q) as int;
    let x = w * abs(a);
    assert(2 * h * x <= w * (big_p + h)) by (nonlinear_arith)
        requires
            x == w * abs(a),
            2 * abs(a) * h <= big_p + h,
            w > 0,
    ;
    assert(w * (big_q + h) == w * big_q + w * h && w * (big_p + h) == w * big_p + w * h && w * (3
        * big_p + 102 * h) == 3 * (w * big_p) + 102 * (w * h) && 100 * (w * big_q) <= 2 * (w
        * big_p) + w * h) by (nonlinear_arith)
        requires
            100 * big_q <= 2 * big_p + h,
            w > 0,
    ;
}

/// A raw value within the range of an `i32` is the number divided by the scale,
/// up to little more than half a step.
proof fn lemma_scaled(x: Binary64, scale: Binary64)
    requires
        x.finite(),
        scale.finite(),
        scale.value() != 0,
        i32::MIN < arith::saturated_i32(arith::quotient(x, scale)) < i32::MAX,
    ensures
        0x10_0000 * abs(
            arith::saturated_i32(arith::quotient(x, scale)) * scale.value() - x.value(),
        ) <= 0x8_0001 * abs(scale.value()),
{
    let one = pow2(1074) as int;
    let h: int = 0x10_0000_0000_0000;
    let y = arith::quotient(x, scale);
    let r = arith::saturated_i32(y) as int;
    let c = scale.value();
    let v = x.value();
    let u = y.value();
    lemma_pow2_pos(1074);
    closest::law_quotient_is_closest(x, scale);
    closest::law_round_to_integer(y);
    if y.infinite() {
        closest::law_infinity(y);
    }
    closest::law_quotient_error(x, scale);
    lemma2_to64_rest();
    lemma_pow2_strictly_increases(52, 1074);
    assert(abs(u) <= 0x1_0000_0000 * one);
    let e = abs(r * one - u) as int;
    let f = abs(u * c - v * one) as int;
    let s = abs(c) as int;
    assert(2 * f * 0x8_0000 <= s * one) by (nonlinear_arith)
        requires
            2 * f * h <= s * (abs(u) + h),
            abs(u) <= 0x1_0000_0000 * one,
            h <= one,
            h == 0x10_0000_0000_0000,
            s >= 0,
            f >= 0,
            one > 0,
    ;
    let d = r * c - v;
    assert(d * one == (r * one - u) * c + (u * c - v * one)) by (nonlinear_arith)
        requires
            d == r * c - v,
    ;
    assert(abs((r * one - u) * c) == e * s && abs(d * one) == abs(d) * one) by (nonlinear_arith)
        requires
            e == abs(r * one - u),
            s == abs(c),
            one > 0,
    ;
    assert(abs(d) * one <= e * s + f);
    assert(0x10_0000 * abs(d) <= 0x8_0001 * s) by (nonlinear_arith)
        requires
            abs(d) * one <= e * s + f,
            2 * e <= one,
            2 * f * 0x8_0000 <= s * one,
            s >= 0,
            one > 0,
    ;
}

/// What is written for a setpoint in watts stands for it: times the scale it
/// gives the setpoint, up to little more than half a step of the register. This
/// holds of every raw value that is not cut off at the ends of an `i32`.
pub proof fn law_watts_written(setpoint_w: Binary64, wmax_w: Binary64, scale: Binary64)
    requires
        setpoint_w.finite(),
        scale.finite(),
        scale.value() != 0,
        i32::MIN < raw_value(SetpointEncoding::Watts, setpoint_w, wmax_w, scale) < i32::MAX,
    ensures
        ({
            let r = raw_value(SetpointEncoding::Watts, setpoint_w, wmax_w, scale);
            0x10_0000 * abs(r * scale.value() - setpoint_w.value()) <= 0x8_0001 * abs(
                scale.value(),
            )
        }),
{
    lemma_scaled(setpoint_w, scale);
}

/// What is written for a setpoint in percent stands for it: times the scale it
/// gives the percentage, and times `WMax` a hundred times the setpoint, up to
/// little more than half a step of the register.
pub proof fn law_percent_written(setpoint_w: Binary64, wmax_w: Binary64, scale: Binary64)
    requires
        setpoint_w.finite(),
        wmax_w.finite(),
        wmax_w.value() > 0,
        scale.finite(),
        scale.value() != 0,
        i32::MIN < raw_value(SetpointEncoding::Percent, setpoint_w, wmax_w, scale) < i32::MAX,
    ensures
        ({
            let r = raw_value(SetpointEncoding::Percent, setpoint_w, wmax_w, scale);
            0x20_0000_0000_0000 * abs(
                r * scale.value() * wmax_w.value() - 100 * (setpoint_w.value() * pow2(1074)),
            ) <= wmax_w.value() * (0x10_0004_0000_0000 * abs(scale.value()) + 102
                * 0x10_0000_0000_0000)
        }),
{
    let one = pow2(1074) as int;
    let percentage = percent_of(setpoint_w, wmax_w);
    let x = arith::quotient(percentage, scale);
    law_percentage(setpoint_w, wmax_w);
    closest::law_special_results(percentage, scale);
    closest::law_round_to_integer(x);
    if percentage.infinite() {
        closest::law_infinity(x);
    }
    lemma_scaled(percentage, scale);
    let r = raw_value(SetpointEncoding::Percent, setpoint_w, wmax_w, scale) as int;
    let c = scale.value();
    let w = wmax_w.value();
    let p = percentage.value();
    let s = 100 * (setpoint_w.value() * one);
    let d = r * c - p;
    assert(abs(r * c) <= 0x8000_0000 * abs(c)) by (nonlinear_arith)
        requires
            -0x8000_0000 <= r <= 0x8000_0000,
    ;
    assert(r * c * w - s == d * w + (p * w - s)) by (nonlinear_arith)
        requires
            d == r * c - p,
    ;
    assert(abs(d * w) == abs(d) * w) by (nonlinear_arith)
        requires
            w > 0,
    ;
    let big = abs(c) as int;
    let e = abs(d) as int;
    assert(3 * abs(p) <= 0x1_8000_0006 * big);
    assert(0x20_0000_0000_0000 * (e * w) <= w * (0x2_0000_0000 * (0x8_0001 * big)))
        by (nonlinear_arith)
        requires
            0x10_0000 * e <= 0x8_0001 * big,
            w > 0,
    ;
    assert(w * (3 * abs(p) + 102 * 0x10_0000_0000_0000) <= w * (0x1_8000_0006 * big + 102
        * 0x10_0000_0000_0000)) by (nonlinear_arith)
        requires
            3 * abs(p) <= 0x1_8000_0006 * big,
            w > 0,
    ;
    assert(w * (0x2_0000_0000 * (0x8_0001 * big)) + w * (0x1_8000_0006 * big + 102
        * 0x10_0000_0000_0000) <= w * (0x10_0004_0000_0000 * big + 102 * 0x10_0000_0000_0000))
        by (nonlinear_arith)
        requires
            w > 0,
            big >= 0,
    ;
}

/// House load is import minus export plus AC power, up to rounding: for readings
/// of at most 2^k units, to within 2^(k - 51) units.
pub proof fn law_house_load(input: ControlInput, k: nat)
    requires
        finite_readings(input),
        53 <= k <= 2094,
        abs(input.import_w.value()) <= pow2(k),
        abs(input.export_w.value()) <= pow2(k),
        abs(input.inverter_ac_w.value()) <= pow2(k),
    ensures
        house_load(input).finite(),
        abs(
            house_load(input).value() - (input.import_w.value() - input.export_w.value()
                + input.inverter_ac_w.value()),
        ) <= pow2((k - 51) as nat),
{
    lemma_pow2_unfold(k + 1);
    lemma_pow2_unfold(k + 2);
    lemma_pow2_unfold((k - 52) as nat);
    lemma_pow2_unfold((k - 51) as nat);
    lemma_pow2_pos(k);
    error::law_difference_error(input.import_w, input.export_w, k + 1);
    let grid = arith::difference(input.import_w, input.export_w);
    error::law_sum_error(grid, input.inverter_ac_w, k + 2);
}

/// A reading that is no finite number is found out, whichever it is.
pub proof fn law_unsound_input(input: ControlInput)
    ensures
        is_sound(input) <==> input.import_w.finite() && input.export_w.finite()
            && input.inverter_ac_w.finite() && setpoint(input).finite(),
{
}

/// The setpoint of finite readings, addition by addition, each of which rounds
/// once: export is taken from import, AC power and the export limit are added,
/// and the result is cut to the range from zero to `WMax`. If it is no number,
/// there is no setpoint.
pub proof fn law_setpoint_is_a_sum(input: ControlInput) -> (parts: (Binary64, Binary64))
    requires
        input.import_w.finite(),
        input.export_w.finite(),
        !input.inverter_wmax_w.nan(),
        input.inverter_wmax_w.value() >= 0,
    ensures
        ({
            let (grid, total) = parts;
            let wmax = input.inverter_wmax_w.value();
            let set = setpoint(input);
            &&& closest::closest(grid, input.import_w.value() - input.export_w.value(), 1)
            &&& closest::is_sum(house_load(input), grid, input.inverter_ac_w)
            &&& closest::is_sum(total, house_load(input), input.export_limit_w)
            &&& set.nan() <==> total.nan()
            &&& !total.nan() ==> set.value() == (if total.value() < 0 {
                0
            } else if total.value() > wmax {
                wmax
            } else {
                total.value()
            })
        }),
{
    let grid = arith::difference(input.import_w, input.export_w);
    let total = arith::sum(house_load(input), input.export_limit_w);
    lemma_integer_zero();
    closest::law_difference_is_closest(input.import_w, input.export_w);
    closest::law_sum(grid, input.inverter_ac_w);
    closest::law_sum(house_load(input), input.export_limit_w);
    closest::law_clamp(total, arith::integer(0), input.inverter_wmax_w);
    (grid, total)
}

/// The percentage of a positive `WMax`, step by step, each of which rounds once:
/// the setpoint by `WMax`, times a hundred.
pub proof fn law_percentage_is_closest(setpoint_w: Binary64, wmax_w: Binary64) -> (share: Binary64)
    requires
        setpoint_w.finite(),
        wmax_w.finite(),
        wmax_w.value() > 0,
    ensures
        closest::closest(share, setpoint_w.value() * pow2(1074), wmax_w.value()),
        share.finite() ==> closest::closest(
            percent_of(setpoint_w, wmax_w),
            100 * share.value(),
            1,
        ),
        share.infinite() ==> percent_of(setpoint_w, wmax_w).infinite() && percent_of(
            setpoint_w,
            wmax_w,
        ).negative() == share.negative(),
{
    let share = arith::quotient(setpoint_w, wmax_w);
    let hundred = arith::integer(100);
    let one = pow2(1074) as int;
    lemma_pow2_pos(1074);
    lemma_integer_zero();
    whole::lemma_integer(100);
    closest::law_quotient_is_closest(setpoint_w, wmax_w);
    closest::law_special_results(share, hundred);
    assert(hundred.value() > 0) by (nonlinear_arith)
        requires
            hundred.value() == 100 * one,
            one > 0,
    ;
    if share.finite() {
        let y = 100 * share.value();
        closest::law_product_is_closest(share, hundred);
        assert(share.value() * (100 * one) == y * one) by (nonlinear_arith)
            requires
                y == 100 * share.value(),
        ;
        closest::lemma_cancel(percent_of(setpoint_w, wmax_w), y, one);
    }
    share
}

/// In the unit of its register a setpoint is its watts, or its percentage, by
/// the scale, rounded once. A scale that is no number or zero leaves nothing that
/// fits, and an infinite one leaves zero.
pub proof fn law_register_value(
    encoding: SetpointEncoding,
    setpoint_w: Binary64,
    wmax_w: Binary64,
    scale: Binary64,
)
    ensures
        ({
            let amount = match encoding {
                SetpointEncoding::Watts => setpoint_w,
                SetpointEncoding::Percent => percent_of(setpoint_w, wmax_w),
            };
            let x = register_value(encoding, setpoint_w, wmax_w, scale);
            &&& amount.finite() && scale.finite() && scale.value() != 0 ==> closest::closest(
                x,
                amount.value() * pow2(1074),
                scale.value(),
            )
            &&& amount.nan() || scale.nan() ==> x.nan()
            &&& amount.infinite() && scale.finite() ==> !x.finite()
            &&& amount.infinite() && scale.infinite() ==> !x.finite()
            &&& amount.finite() && scale.finite() && scale.value() == 0 ==> !x.finite()
            &&& amount.finite() && scale.infinite() ==> !x.nan() && x.value() == 0
        }),
{
    let amount = match encoding {
        SetpointEncoding::Watts => setpoint_w,
        SetpointEncoding::Percent => percent_of(setpoint_w, wmax_w),
    };
    closest::law_special_results(amount, scale);
    closest::law_special_results(scale, amount);
    model::lemma_zero(1);
    if amount.finite() && scale.finite() && scale.value() != 0 {
        closest::law_quotient_is_closest(amount, scale);
    }
}

/// The raw value is the integer nearest to the setpoint in the unit of its
/// register, halves away from zero, and an end of the range of an `i32` beyond
/// it.
pub proof fn law_raw_value(
    encoding: SetpointEncoding,
    setpoint_w: Binary64,
    wmax_w: Binary64,
    scale: Binary64,
)
    ensures
        ({
            let x = register_value(encoding, setpoint_w, wmax_w, scale);
            let r = raw_value(encoding, setpoint_w, wmax_w, scale);
            let one = pow2(1074);
            &&& x.nan() ==> r == 0
            &&& !x.nan() && 2 * x.value() >= 4_294_967_295 * one ==> r == i32::MAX
            &&& !x.nan() && 2 * x.value() <= -4_294_967_297 * one ==> r == i32::MIN
            &&& !x.nan() && -4_294_967_297 * one < 2 * x.value() < 4_294_967_295 * one ==> {
                &&& 2 * abs(r * one - x.value()) <= one
                &&& 2 * abs(r * one - x.value()) == one ==> abs(r * one) > abs(x.value())
            }
        }),
{
    closest::law_round_to_integer(register_value(encoding, setpoint_w, wmax_w, scale));
}

/// At full power the percentage is one hundred.
pub proof fn law_full_power_is_all_percent(wmax_w: Binary64)
    requires
        wmax_w.finite(),
        wmax_w.value() > 0,
    ensures
        percent_of(wmax_w, wmax_w).is_integer(100),
{
    lemma_integer_zero();
    whole::lemma_integer(100);
    whole::law_self_quotient_is_one(wmax_w);
    whole::law_products_are_exact(
        arith::quotient(wmax_w, wmax_w),
        arith::integer(100),
        1,
        100,
    );
}

} // verus!
