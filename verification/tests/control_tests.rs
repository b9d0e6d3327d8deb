use dsmr_sma_limiter::binary64::Binary64;
use dsmr_sma_limiter::config::{RegisterSpec, RegisterType, SetpointEncoding};
use dsmr_sma_limiter::control::{
    compute, has_finite_readings, is_usable_wmax, raw_for_register, setpoint_raw,
    watts_to_percent_scaled, watts_to_scaled, ControlInput, ControlOutput,
};

const WMAX: f64 = 4000.0;
const LIMIT: f64 = 2500.0;

fn n(x: f64) -> Binary64 {
    Binary64::from_bits(x.to_bits())
}

fn f(x: Binary64) -> f64 {
    f64::from_bits(x.to_bits())
}

fn input(import_w: f64, export_w: f64, inverter_ac_w: f64) -> ControlInput {
    ControlInput {
        import_w: n(import_w),
        export_w: n(export_w),
        inverter_ac_w: n(inverter_ac_w),
        export_limit_w: n(LIMIT),
        inverter_wmax_w: n(WMAX),
    }
}

#[test]
fn pv_off_house_load_equals_import() {
    // No PV: import 500 W, export 0, inverter output 0.
    let out = compute(input(500.0, 0.0, 0.0));
    assert_eq!(f(out.house_load_w), 500.0);
    assert_eq!(f(out.setpoint_w), 3000.0); // 500 + 2500, well under WMax.
}

#[test]
fn pv_self_consumed_with_some_export() {
    // House uses 1000 W, PV makes 1500 W, 500 W exported.
    let out = compute(input(0.0, 500.0, 1500.0));
    assert_eq!(f(out.house_load_w), 1000.0);
    assert_eq!(f(out.setpoint_w), 3500.0); // 1000 + 2500
}

#[test]
fn export_exactly_at_cap_holds_current_output() {
    // House load 0, PV fully exported and inverter already at WMax.
    let out = compute(input(0.0, 4000.0, 4000.0));
    assert_eq!(f(out.house_load_w), 0.0);
    assert_eq!(f(out.setpoint_w), 2500.0); // clamps to house_load + limit
}

#[test]
fn zero_load_high_pv_clamped_to_limit() {
    let out = compute(input(0.0, 3900.0, 3900.0));
    assert_eq!(f(out.house_load_w), 0.0);
    assert_eq!(f(out.setpoint_w), 2500.0);
}

#[test]
fn import_exceeding_pv_raises_setpoint_up_to_wmax_clamp() {
    let out = compute(input(3000.0, 0.0, 200.0));
    assert_eq!(f(out.house_load_w), 3200.0);
    // 3200 + 2500 = 5700, clamped to WMax.
    assert_eq!(f(out.setpoint_w), 4000.0);
}

#[test]
fn setpoint_never_goes_negative() {
    // Negative house load (e.g. metering noise).
    let out = compute(ControlInput {
        import_w: n(0.0),
        export_w: n(5000.0),
        inverter_ac_w: n(0.0),
        export_limit_w: n(-1000.0),
        inverter_wmax_w: n(WMAX),
    });
    assert!(f(out.setpoint_w) >= 0.0);
}

#[test]
fn watts_to_percent_scaled_basic() {
    // 2000 W of 4000 W WMax = 50%, scale 0.1 -> register value 500.
    let v = watts_to_percent_scaled(n(2000.0), n(4000.0), n(0.1));
    assert_eq!(v, 500);
}

#[test]
fn watts_to_percent_scaled_unscaled() {
    let v = watts_to_percent_scaled(n(1000.0), n(4000.0), n(1.0));
    assert_eq!(v, 25);
}

#[test]
fn watts_to_scaled_identity() {
    let v = watts_to_scaled(n(1234.0), n(1.0));
    assert_eq!(v, 1234);
}

#[test]
fn setpoint_is_exactly_zero_when_the_sum_is_negative() {
    let out = compute(ControlInput {
        import_w: n(0.0),
        export_w: n(5000.0),
        inverter_ac_w: n(0.0),
        export_limit_w: n(-1000.0),
        inverter_wmax_w: n(WMAX),
    });
    assert_eq!(f(out.setpoint_w), 0.0);
    assert_eq!(f(out.house_load_w), -5000.0);
}

#[test]
fn fractional_readings_follow_the_formula() {
    let out = compute(input(421.7, 0.3, 1499.25));
    assert_eq!(f(out.house_load_w), 421.7 - 0.3 + 1499.25);
    assert_eq!(f(out.setpoint_w), WMAX.min(421.7 - 0.3 + 1499.25 + LIMIT));
}

#[test]
fn unreadable_import_gives_no_number() {
    let out = compute(input(f64::NAN, 0.0, 0.0));
    assert!(f(out.house_load_w).is_nan());
    assert!(f(out.setpoint_w).is_nan());
}

#[test]
fn outputs_compare_by_value() {
    let a = compute(input(500.0, 0.0, 0.0));
    assert_eq!(a, ControlOutput { house_load_w: n(500.0), setpoint_w: n(3000.0) });
    assert_ne!(a, ControlOutput { house_load_w: n(500.0), setpoint_w: n(3001.0) });
    assert_eq!(n(0.0), n(-0.0));
    assert_ne!(n(f64::NAN), n(f64::NAN));
}

#[test]
fn wmax_must_bound_a_range() {
    assert!(is_usable_wmax(n(4000.0)));
    assert!(is_usable_wmax(n(0.0)));
    assert!(is_usable_wmax(n(-0.0)));
    assert!(is_usable_wmax(n(f64::INFINITY)));
    assert!(!is_usable_wmax(n(-1.0)));
    assert!(!is_usable_wmax(n(f64::NAN)));
}

#[test]
fn percentage_of_no_power_is_zero() {
    assert_eq!(watts_to_percent_scaled(n(2000.0), n(0.0), n(1.0)), 0);
    assert_eq!(watts_to_percent_scaled(n(2000.0), n(-5.0), n(1.0)), 0);
}

#[test]
fn full_power_is_one_hundred_percent() {
    for wmax in [1.0, 3.0, 3680.0, 4000.0, 0.1, 1e300] {
        assert_eq!(watts_to_percent_scaled(n(wmax), n(wmax), n(0.01)), 10000);
    }
}

#[test]
fn raw_values_round_and_saturate() {
    assert_eq!(watts_to_scaled(n(2.5), n(1.0)), 3);
    assert_eq!(watts_to_scaled(n(-2.5), n(1.0)), -3);
    assert_eq!(watts_to_scaled(n(2.4999), n(1.0)), 2);
    assert_eq!(watts_to_scaled(n(1e30), n(1.0)), i32::MAX);
    assert_eq!(watts_to_scaled(n(-1e30), n(1.0)), i32::MIN);
    assert_eq!(watts_to_scaled(n(1.0), n(0.0)), i32::MAX);
    assert_eq!(watts_to_scaled(n(0.0), n(0.0)), 0);
}

#[test]
fn setpoint_encoding_selects_the_unit() {
    let raw = setpoint_raw(SetpointEncoding::Watts, n(2000.0), n(4000.0), n(0.1));
    assert_eq!(raw, 20000);
    let raw = setpoint_raw(SetpointEncoding::Percent, n(2000.0), n(4000.0), n(0.01));
    assert_eq!(raw, 5000);
}

#[test]
fn export_is_capped_once_the_inverter_follows() {
    for import in [0.0, 17.0, 480.0, 3999.0] {
        for export in [0.0, 250.0, 3500.0] {
            for ac in [0.0, 1200.0, 4000.0] {
                let out = compute(input(import, export, ac));
                let load = import - export + ac;
                assert_eq!(f(out.house_load_w), load);
                let set = f(out.setpoint_w);
                assert!((0.0..=WMAX).contains(&set));
                assert!(set - load <= LIMIT || set == 0.0);
                assert!(set == WMAX || set == 0.0 || set == load + LIMIT);
            }
        }
    }
}

#[test]
fn fractions_of_a_watt_cost_next_to_nothing() {
    // 421.1 W - 0.3 W + 1500.7 W + 2500 W is 4421.5 W; the readings are below 2^13 W.
    let mut i = input(421.1, 0.3, 1500.7);
    i.inverter_wmax_w = n(10_000.0);
    let set = f(compute(i).setpoint_w);
    assert!((set - 4421.5).abs() <= 8192.0 * 2f64.powi(-50));
}

#[test]
fn registers_hold_what_is_in_their_range() {
    let raw = |reg_type: RegisterType, watts: f64| {
        let register = RegisterSpec { address: 1, reg_type, scale: n(1.0) };
        raw_for_register(SetpointEncoding::Watts, n(watts), n(4000.0), &register)
    };
    assert_eq!(raw(RegisterType::U16, 65535.0), Some(65535));
    assert_eq!(raw(RegisterType::U16, 65536.0), None);
    assert_eq!(raw(RegisterType::U16, -1.0), None);
    assert_eq!(raw(RegisterType::S16, 32767.0), Some(32767));
    assert_eq!(raw(RegisterType::S16, 32768.0), None);
    assert_eq!(raw(RegisterType::S16, -32768.0), Some(-32768));
    assert_eq!(raw(RegisterType::S16, -32769.0), None);
    assert_eq!(raw(RegisterType::U32, 2147483647.0), Some(i32::MAX));
    assert_eq!(raw(RegisterType::U32, 2147483648.0), None);
    assert_eq!(raw(RegisterType::S32, -2147483648.0), Some(i32::MIN));
    assert_eq!(raw(RegisterType::S32, 2147483648.0), None);
    assert_eq!(raw(RegisterType::S32, f64::NAN), None);
    assert_eq!(raw(RegisterType::S32, 2.5), Some(3));
    // It is the rounded value that has to fit.
    assert_eq!(raw(RegisterType::U16, 65535.25), Some(65535));
    assert_eq!(raw(RegisterType::U16, 65535.5), None);
    assert_eq!(raw(RegisterType::U16, -0.25), Some(0));
    assert_eq!(raw(RegisterType::U16, -0.5), None);
    assert_eq!(raw(RegisterType::S32, 2147483647.25), Some(i32::MAX));
    assert_eq!(raw(RegisterType::S32, 2147483647.5), None);
    assert_eq!(raw(RegisterType::S32, -2147483648.25), Some(i32::MIN));
    assert_eq!(raw(RegisterType::S32, -2147483648.5), None);
    assert_eq!(raw(RegisterType::S32, 1e300), None);
    assert_eq!(raw(RegisterType::S32, 1e-300), Some(0));
    assert_eq!(raw(RegisterType::S32, f64::INFINITY), None);
    let register = RegisterSpec { address: 1, reg_type: RegisterType::S32, scale: n(0.01) };
    assert_eq!(
        raw_for_register(SetpointEncoding::Percent, n(1000.0), n(4000.0), &register),
        Some(2500)
    );
}

#[test]
fn readings_are_finite_in_every_field() {
    assert!(has_finite_readings(&input(1.0, 2.0, 3.0)));
    assert!(!has_finite_readings(&input(f64::NAN, 2.0, 3.0)));
    assert!(!has_finite_readings(&input(1.0, f64::INFINITY, 3.0)));
    assert!(!has_finite_readings(&input(1.0, 2.0, f64::NEG_INFINITY)));
    // The limit and WMax are no readings.
    let mut i = input(1.0, 2.0, 3.0);
    i.export_limit_w = n(f64::INFINITY);
    i.inverter_wmax_w = n(f64::INFINITY);
    assert!(has_finite_readings(&i));
}

#[test]
fn infinite_limits_are_cut_to_the_range() {
    let mut i = input(100.0, 0.0, 0.0);
    i.export_limit_w = n(f64::INFINITY);
    assert_eq!(f(compute(i).setpoint_w), WMAX);
    i.export_limit_w = n(f64::NEG_INFINITY);
    assert_eq!(f(compute(i).setpoint_w), 0.0);
    i.export_limit_w = n(LIMIT);
    i.inverter_wmax_w = n(f64::INFINITY);
    assert_eq!(f(compute(i).setpoint_w), 2600.0);
}

#[test]
fn finite_readings_give_a_setpoint_in_range_even_if_they_overflow() {
    let out = compute(input(f64::MAX, -f64::MAX, f64::MAX));
    assert_eq!(f(out.house_load_w), f64::INFINITY);
    assert_eq!(f(out.setpoint_w), WMAX);
    let out = compute(input(-f64::MAX, f64::MAX, -f64::MAX));
    assert_eq!(f(out.setpoint_w), 0.0);
}
