use dsmr_sma_limiter::binary64::Binary64;
use dsmr_sma_limiter::config::{Config, RegisterSpec};
use dsmr_sma_limiter::modbus_client::{ExceptionCode, ModbusIoError};
use dsmr_sma_limiter::selfcheck::{
    arm, check_fallback_safe, decide, outcome, ArmStep, Arming, Request, SelfCheckError,
    SelfCheckReport,
};

const LIMIT: f64 = 2500.0;
const EXTERNAL_MODE: Option<f64> = Some(1079.0);

fn n(x: f64) -> Binary64 {
    Binary64::from_bits(x.to_bits())
}

fn f(x: Binary64) -> f64 {
    f64::from_bits(x.to_bits())
}

fn evaluate(
    mode: f64,
    timeout_s: f64,
    fallback_value_w: Option<f64>,
    operating_mode: Option<f64>,
    fallback_max_w: f64,
) -> Vec<String> {
    dsmr_sma_limiter::selfcheck::evaluate(
        n(mode),
        n(timeout_s),
        fallback_value_w.map(n),
        operating_mode.map(n),
        n(fallback_max_w),
    )
}

fn percent_of_wmax_to_watts(fallback_pct: f64, wmax_w: f64) -> f64 {
    f(dsmr_sma_limiter::selfcheck::percent_of_wmax_to_watts(n(fallback_pct), n(wmax_w)))
}

fn config(extra: &[(&str, &str)]) -> Config {
    let mut vars: Vec<(String, String)> = Vec::new();
    for (name, value) in extra {
        vars.push((name.to_string(), value.to_string()));
    }
    for (name, value) in [("E20_HOST", "e20"), ("INVERTER_HOST", "sma"), ("SETPOINT_ADDR", "40149")]
    {
        vars.push((name.to_string(), value.to_string()));
    }
    Config::from_env(&vars).unwrap()
}

#[test]
fn safe_configuration_has_no_issues() {
    let issues = evaluate(2507.0, 5.0, Some(2000.0), EXTERNAL_MODE, LIMIT);
    assert!(issues.is_empty());
}

#[test]
fn wrong_mode_is_an_issue() {
    let issues = evaluate(2506.0, 5.0, Some(2000.0), EXTERNAL_MODE, LIMIT);
    assert_eq!(issues.len(), 1);
    assert!(issues[0].contains("fallback mode"));
}

#[test]
fn zero_timeout_is_an_issue() {
    let issues = evaluate(2507.0, 0.0, Some(2000.0), EXTERNAL_MODE, LIMIT);
    assert!(issues.iter().any(|i| i.contains("timeout")));
}

#[test]
fn timeout_above_max_is_an_issue() {
    let issues = evaluate(2507.0, 600.0, Some(2000.0), EXTERNAL_MODE, LIMIT);
    assert!(issues.iter().any(|i| i.contains("timeout")));
}

#[test]
fn fallback_value_above_limit_is_an_issue() {
    let issues = evaluate(2507.0, 5.0, Some(3000.0), EXTERNAL_MODE, LIMIT);
    assert!(issues.iter().any(|i| i.contains("exceeds FALLBACK_MAX_W")));
}

#[test]
fn fallback_value_at_exactly_the_limit_is_safe() {
    let issues = evaluate(2507.0, 5.0, Some(LIMIT), EXTERNAL_MODE, LIMIT);
    assert!(issues.is_empty());
}

#[test]
fn nan_fallback_value_is_an_issue() {
    let issues = evaluate(2507.0, 5.0, Some(i32::MIN as f64), EXTERNAL_MODE, LIMIT);
    assert!(issues.iter().any(|i| i.contains("NaN")));
}

#[test]
fn unreadable_fallback_value_is_not_an_issue_on_its_own() {
    let issues = evaluate(2507.0, 5.0, None, EXTERNAL_MODE, LIMIT);
    assert!(issues.is_empty());
}

#[test]
fn multiple_problems_all_get_reported() {
    let issues = evaluate(2506.0, 600.0, Some(3000.0), EXTERNAL_MODE, LIMIT);
    assert_eq!(issues.len(), 3);
}

#[test]
fn wrong_operating_mode_is_an_issue() {
    // 1078: manual %.
    let issues = evaluate(2507.0, 5.0, Some(2000.0), Some(1078.0), LIMIT);
    assert!(issues.iter().any(|i| i.contains("operating mode")));
}

#[test]
fn unreadable_operating_mode_is_not_an_issue_on_its_own() {
    let issues = evaluate(2507.0, 5.0, Some(2000.0), None, LIMIT);
    assert!(issues.is_empty());
}

#[test]
fn decide_passes_with_no_issues_regardless_of_enforce() {
    assert!(decide(vec![], true).is_ok());
    assert!(decide(vec![], false).is_ok());
}

#[test]
fn decide_blocks_on_issues_when_enforced() {
    assert!(decide(vec!["bad".to_string()], true).is_err());
}

#[test]
fn decide_allows_override_when_not_enforced() {
    assert!(decide(vec!["bad".to_string()], false).is_ok());
}

#[test]
fn percent_of_wmax_basic() {
    assert_eq!(percent_of_wmax_to_watts(50.0, 4000.0), 2000.0);
}

#[test]
fn percent_of_wmax_full_scale() {
    assert_eq!(percent_of_wmax_to_watts(100.0, 4000.0), 4000.0);
}

#[test]
fn percent_of_wmax_zero() {
    assert_eq!(percent_of_wmax_to_watts(0.0, 4000.0), 0.0);
}

#[test]
fn end_to_end_evaluate_flags_fallback_above_limit() {
    // 65 % of 4000 W is 2600 W, above a 2500 W maximum.
    let fallback_w = percent_of_wmax_to_watts(65.0, 4000.0);
    assert_eq!(fallback_w, 2600.0);
    let issues = evaluate(2507.0, 5.0, Some(fallback_w), EXTERNAL_MODE, 2500.0);
    assert!(issues.iter().any(|i| i.contains("exceeds FALLBACK_MAX_W")));
}

#[test]
fn fallback_above_export_limit_accepted_up_to_fallback_max() {
    // Accepted even though above the 2500 W export limit.
    let fallback_w = percent_of_wmax_to_watts(65.0, 4000.0);
    let issues = evaluate(2507.0, 5.0, Some(fallback_w), EXTERNAL_MODE, 2600.0);
    assert!(issues.is_empty());
}

#[test]
fn issues_are_worded_and_ordered() {
    let issues = evaluate(2506.0, 600.5, Some(3000.4), Some(303.0), 2500.0);
    assert_eq!(
        issues,
        vec![
            "operating mode active power setting is 303, expected 1079 (\"External active power \
             setpoint\"); the inverter is ignoring this daemon's setpoint writes"
                .to_string(),
            "fallback mode is 2506, expected 2507 (\"apply fallback values\"); on comm loss the \
             inverter would hold its last setpoint instead of falling back"
                .to_string(),
            format!("fallback timeout is {:.0}s, outside the safe range (0, 30]s", 600.5),
            "fallback value is 3000 W, which exceeds FALLBACK_MAX_W (2500 W)".to_string(),
        ]
    );
}

#[test]
fn never_configured_fallback_value_is_reported() {
    let expected = "fallback value register read back as NaN (never configured); confirm \
                    manually in the inverter's UI that it is set at or below FALLBACK_MAX_W";
    let issues = evaluate(2507.0, 5.0, Some(-2147483647.0), EXTERNAL_MODE, LIMIT);
    assert_eq!(issues, vec![expected.to_string()]);
    let issues = evaluate(2507.0, 5.0, Some(-2147483646.0), EXTERNAL_MODE, LIMIT);
    assert!(issues.is_empty());
}

#[test]
fn timeout_bounds_are_exact() {
    assert!(evaluate(2507.0, 30.0, None, None, LIMIT).is_empty());
    assert_eq!(evaluate(2507.0, 30.001, None, None, LIMIT).len(), 1);
    assert!(evaluate(2507.0, 0.001, None, None, LIMIT).is_empty());
    assert_eq!(evaluate(2507.0, -1.0, None, None, LIMIT).len(), 1);
}

#[test]
fn blocked_issues_are_handed_back() {
    match decide(vec!["a".to_string(), "b".to_string()], true) {
        Err(SelfCheckError::FailedChecks(issues)) => assert_eq!(issues, vec!["a", "b"]),
        other => panic!("{other:?}"),
    }
}

fn read_address(arming: &Arming, cfg: &Config) -> u16 {
    match arming.request(cfg) {
        Request::Read(RegisterSpec { address, .. }) => address,
        other => panic!("{other:?}"),
    }
}

fn ask(step: ArmStep) -> Arming {
    match step {
        ArmStep::Ask(arming) => arming,
        other => panic!("{other:?}"),
    }
}

#[test]
fn arming_asks_in_order() {
    let cfg = config(&[("DRY_RUN", "false")]);
    let a = Arming::new();
    assert_eq!(read_address(&a, &cfg), 30233);
    let a = ask(a.on_reading(&cfg, Ok(n(4000.0))));
    match a.request(&cfg) {
        Request::Write { address, value } => {
            assert_eq!(address, 40151);
            assert_eq!(value, 802);
        }
        other => panic!("{other:?}"),
    }
    let a = ask(a.on_written(Ok(())));
    assert_eq!(read_address(&a, &cfg), 41193);
    let a = ask(a.on_reading(&cfg, Ok(n(2507.0))));
    assert_eq!(read_address(&a, &cfg), 41195);
    let a = ask(a.on_reading(&cfg, Ok(n(5.0))));
    assert_eq!(read_address(&a, &cfg), 41197);
    let a = ask(a.on_reading(&cfg, Ok(n(65.0))));
    assert_eq!(read_address(&a, &cfg), 30835);
    match a.on_reading(&cfg, Ok(n(1079.0))) {
        ArmStep::Checked { wmax_w, report } => {
            assert_eq!(f(wmax_w), 4000.0);
            // 65 % of 4000 W is above the 2500 W maximum.
            assert_eq!(report.issues.len(), 1);
            assert!(report.issues[0].contains("2600 W"));
        }
        other => panic!("{other:?}"),
    }
}

#[test]
fn dry_run_does_not_activate() {
    let cfg = config(&[]);
    assert!(matches!(arm(&cfg, n(4000.0)), Arming::Mode { .. }));
    let cfg = config(&[("DRY_RUN", "false"), ("COMM_CONTROL_ACTIVATE", "false")]);
    assert!(matches!(arm(&cfg, n(4000.0)), Arming::Mode { .. }));
    let cfg = config(&[("DRY_RUN", "false")]);
    assert!(matches!(arm(&cfg, n(4000.0)), Arming::Activation { .. }));
}

#[test]
fn fallback_value_in_watts_is_taken_as_it_is() {
    let cfg = config(&[("FALLBACK_VALUE_ENCODING", "W")]);
    let a = ask(check_fallback_safe(n(4000.0)).on_reading(&cfg, Ok(n(2507.0))));
    let a = ask(a.on_reading(&cfg, Ok(n(5.0))));
    let a = ask(a.on_reading(&cfg, Ok(n(2500.0))));
    match a.on_reading(&cfg, Ok(n(1079.0))) {
        ArmStep::Checked { report, .. } => assert!(report.issues.is_empty()),
        other => panic!("{other:?}"),
    }
}

#[test]
fn optional_readings_may_fail() {
    let cfg = config(&[]);
    let a = ask(check_fallback_safe(n(4000.0)).on_reading(&cfg, Ok(n(2507.0))));
    let a = ask(a.on_reading(&cfg, Ok(n(5.0))));
    let a = ask(a.on_reading(&cfg, Err(ModbusIoError::Transport("timeout".to_string()))));
    match a.on_reading(&cfg, Err(ModbusIoError::NotImplemented { address: 30835, raw: -1 })) {
        ArmStep::Checked { report, .. } => assert!(report.issues.is_empty()),
        other => panic!("{other:?}"),
    }
}

#[test]
fn required_replies_may_not_fail() {
    let cfg = config(&[]);
    let refused = ModbusIoError::NotArmed(ExceptionCode::IllegalDataValue);
    assert!(matches!(
        Arming::new().on_reading(&cfg, Err(refused)),
        ArmStep::Failed(ModbusIoError::NotArmed(ExceptionCode::IllegalDataValue))
    ));
    let lost = || ModbusIoError::Transport("lost".to_string());
    let mode = check_fallback_safe(n(4000.0));
    assert!(matches!(mode.on_reading(&cfg, Err(lost())), ArmStep::Failed(_)));
    let timeout = ask(mode.on_reading(&cfg, Ok(n(2507.0))));
    assert!(matches!(timeout.on_reading(&cfg, Err(lost())), ArmStep::Failed(_)));
    let activation = Arming::Activation { wmax_w: n(4000.0) };
    assert!(matches!(activation.on_written(Err(lost())), ArmStep::Failed(_)));
}

#[test]
fn no_number_is_not_safe() {
    let issues = evaluate(2507.0, f64::NAN, Some(2000.0), EXTERNAL_MODE, LIMIT);
    assert_eq!(issues, vec!["fallback timeout is NaNs, outside the safe range (0, 30]s"]);
    assert_eq!(evaluate(2507.0, f64::NAN, None, None, LIMIT).len(), 1);
    assert_eq!(evaluate(2507.0, f64::INFINITY, None, None, LIMIT).len(), 1);
    let issues = evaluate(2507.0, 5.0, Some(f64::NAN), EXTERNAL_MODE, LIMIT);
    assert_eq!(issues.len(), 1);
    assert!(issues[0].contains("read back as NaN"));
    let issues = evaluate(2507.0, 5.0, Some(2000.0), EXTERNAL_MODE, f64::NAN);
    assert_eq!(issues, vec!["fallback value is 2000 W, which exceeds FALLBACK_MAX_W (NaN W)"]);
    assert_eq!(evaluate(f64::NAN, 5.0, None, None, LIMIT).len(), 1);
    assert_eq!(evaluate(2507.0, 5.0, None, Some(f64::NAN), LIMIT).len(), 1);
}

#[test]
fn scales_that_are_no_numbers_are_refused() {
    let cfg = config(&[("FALLBACK_TIMEOUT_SCALE", "nan")]);
    let timeout_s = Binary64::from_i64(5).times(cfg.fallback_timeout_reg.scale);
    let a = ask(check_fallback_safe(n(4000.0)).on_reading(&cfg, Ok(n(2507.0))));
    let a = ask(a.on_reading(&cfg, Ok(timeout_s)));
    let a = ask(a.on_reading(&cfg, Ok(n(10.0))));
    let last = a.on_reading(&cfg, Ok(n(1079.0)));
    assert!(matches!(outcome(last, &cfg), Some(Err(SelfCheckError::FailedChecks(_)))));
}

fn checked(issues: &[&str]) -> ArmStep {
    let issues = issues.iter().map(|i| i.to_string()).collect();
    ArmStep::Checked { wmax_w: n(4000.0), report: SelfCheckReport { issues } }
}

#[test]
fn outcome_of_arming() {
    let enforced = config(&[]);
    let overridden = config(&[("SELFCHECK_ENFORCE", "false")]);
    for cfg in [&enforced, &overridden] {
        assert!(outcome(ArmStep::Ask(Arming::new()), cfg).is_none());
        assert_eq!(f(outcome(checked(&[]), cfg).unwrap().unwrap()), 4000.0);
        let failed = ArmStep::Failed(ModbusIoError::Transport("lost".to_string()));
        match outcome(failed, cfg) {
            Some(Err(SelfCheckError::Modbus(ModbusIoError::Transport(cause)))) => {
                assert_eq!(cause, "lost");
            }
            other => panic!("{other:?}"),
        }
    }
    match outcome(checked(&["bad"]), &enforced) {
        Some(Err(SelfCheckError::FailedChecks(issues))) => assert_eq!(issues, vec!["bad"]),
        other => panic!("{other:?}"),
    }
    assert_eq!(f(outcome(checked(&["bad"]), &overridden).unwrap().unwrap()), 4000.0);
}
