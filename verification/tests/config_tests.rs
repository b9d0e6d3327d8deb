use dsmr_sma_limiter::binary64::Binary64;
use dsmr_sma_limiter::config::{
    Config, ConfigError, RegisterSpec, RegisterType, SetpointEncoding,
};

fn f(x: Binary64) -> f64 {
    f64::from_bits(x.to_bits())
}

fn vars(pairs: &[(&str, &str)]) -> Vec<(String, String)> {
    pairs.iter().map(|(a, b)| (a.to_string(), b.to_string())).collect()
}

fn with(extra: &[(&str, &str)]) -> Result<Config, ConfigError> {
    let mut v = vars(extra);
    v.extend(vars(&[
        ("E20_HOST", "e20.local"),
        ("INVERTER_HOST", "sma.local"),
        ("SETPOINT_ADDR", "40149"),
    ]));
    Config::from_env(&v)
}

fn message(extra: &[(&str, &str)]) -> String {
    with(extra).unwrap_err().message()
}

fn check(reg: &RegisterSpec, address: u16, reg_type: RegisterType, scale: f64) {
    assert_eq!(reg.address, address);
    assert_eq!(reg.reg_type, reg_type);
    assert_eq!(f(reg.scale), scale);
}

#[test]
fn defaults_are_those_of_the_register_list() {
    let c = with(&[]).unwrap();
    assert_eq!(c.e20_host, "e20.local");
    assert_eq!(c.e20_port, 23);
    assert_eq!(c.inverter_host, "sma.local");
    assert_eq!(c.inverter_port, 502);
    assert_eq!(c.inverter_unit_id_ctrl, 3);
    assert_eq!(f(c.export_limit_w), 2500.0);
    assert_eq!(f(c.fallback_max_w), 2500.0);
    check(&c.ac_power_reg, 30775, RegisterType::S32, 1.0);
    check(&c.setpoint_reg, 40149, RegisterType::S32, 1.0);
    assert_eq!(c.setpoint_encoding, SetpointEncoding::Percent);
    check(&c.fallback_mode_reg, 41193, RegisterType::U32, 1.0);
    check(&c.fallback_timeout_reg, 41195, RegisterType::U32, 1.0);
    check(&c.fallback_value_reg, 41197, RegisterType::U32, 0.01);
    assert_eq!(c.fallback_value_encoding, SetpointEncoding::Percent);
    check(&c.inverter_wmax_reg, 30233, RegisterType::U32, 1.0);
    check(&c.operating_mode_reg, 30835, RegisterType::U32, 1.0);
    check(&c.current_limit_reg, 31405, RegisterType::U32, 1.0);
    assert_eq!(c.comm_control_activate_addr, 40151);
    assert!(c.comm_control_activate);
    assert!(c.selfcheck_enforce);
    assert!(!c.write_when_not_producing);
    assert_eq!(c.telegram_staleness, 3000);
    assert_eq!(c.reconnect_backoff_min, 500);
    assert_eq!(c.reconnect_backoff_max, 30_000);
    assert!(c.dry_run);
    assert_eq!(c.log_level, "info");
    assert_eq!(c.health_port, 8080);
}

#[test]
fn every_setting_can_be_given() {
    let c = with(&[
        ("E20_PORT", "2323"),
        ("INVERTER_PORT", "1502"),
        ("INVERTER_UNIT_ID_CTRL", "255"),
        ("EXPORT_LIMIT_W", "1234.5"),
        ("AC_POWER_ADDR", "1"),
        ("AC_POWER_TYPE", "u16"),
        ("AC_POWER_SCALE", "0.1"),
        ("SETPOINT_TYPE", "U32"),
        ("SETPOINT_SCALE", "10"),
        ("SETPOINT_ENCODING", "w"),
        ("FALLBACK_MODE_ADDR", "2"),
        ("FALLBACK_MODE_TYPE", "S16"),
        ("FALLBACK_MODE_SCALE", "2"),
        ("FALLBACK_TIMEOUT_ADDR", "3"),
        ("FALLBACK_TIMEOUT_TYPE", "s16"),
        ("FALLBACK_TIMEOUT_SCALE", "3"),
        ("FALLBACK_VALUE_ADDR", "4"),
        ("FALLBACK_VALUE_TYPE", "s32"),
        ("FALLBACK_VALUE_SCALE", "4"),
        ("FALLBACK_VALUE_ENCODING", "watts"),
        ("INVERTER_WMAX_ADDR", "5"),
        ("INVERTER_WMAX_TYPE", "S32"),
        ("INVERTER_WMAX_SCALE", "5"),
        ("OPERATING_MODE_ADDR", "6"),
        ("OPERATING_MODE_TYPE", "U16"),
        ("OPERATING_MODE_SCALE", "6"),
        ("CURRENT_LIMIT_ADDR", "7"),
        ("CURRENT_LIMIT_TYPE", "S32"),
        ("CURRENT_LIMIT_SCALE", "7"),
        ("COMM_CONTROL_ACTIVATE_ADDR", "8"),
        ("COMM_CONTROL_ACTIVATE", "no"),
        ("SELFCHECK_ENFORCE", "OFF"),
        ("WRITE_WHEN_NOT_PRODUCING", "Yes"),
        ("TELEGRAM_STALENESS_MS", "18446744073709551615"),
        ("RECONNECT_BACKOFF_MIN_MS", "1"),
        ("RECONNECT_BACKOFF_MAX_MS", "2"),
        ("DRY_RUN", "0"),
        ("LOG_LEVEL", "debug"),
        ("HEALTH_PORT", "+9000"),
    ])
    .unwrap();
    assert_eq!(c.e20_port, 2323);
    assert_eq!(c.inverter_port, 1502);
    assert_eq!(c.inverter_unit_id_ctrl, 255);
    assert_eq!(f(c.export_limit_w), 1234.5);
    assert_eq!(f(c.fallback_max_w), 1234.5);
    check(&c.ac_power_reg, 1, RegisterType::U16, 0.1);
    check(&c.setpoint_reg, 40149, RegisterType::U32, 10.0);
    assert_eq!(c.setpoint_encoding, SetpointEncoding::Watts);
    check(&c.fallback_mode_reg, 2, RegisterType::S16, 2.0);
    check(&c.fallback_timeout_reg, 3, RegisterType::S16, 3.0);
    check(&c.fallback_value_reg, 4, RegisterType::S32, 4.0);
    assert_eq!(c.fallback_value_encoding, SetpointEncoding::Watts);
    check(&c.inverter_wmax_reg, 5, RegisterType::S32, 5.0);
    check(&c.operating_mode_reg, 6, RegisterType::U16, 6.0);
    check(&c.current_limit_reg, 7, RegisterType::S32, 7.0);
    assert_eq!(c.comm_control_activate_addr, 8);
    assert!(!c.comm_control_activate);
    assert!(!c.selfcheck_enforce);
    assert!(c.write_when_not_producing);
    assert_eq!(c.telegram_staleness, u64::MAX);
    assert_eq!(c.reconnect_backoff_min, 1);
    assert_eq!(c.reconnect_backoff_max, 2);
    assert!(!c.dry_run);
    assert_eq!(c.log_level, "debug");
    assert_eq!(c.health_port, 9000);
}

#[test]
fn required_variables_are_missed_in_order() {
    let missing = |pairs: &[(&str, &str)]| match Config::from_env(&vars(pairs)) {
        Err(ConfigError::Missing(name)) => name,
        other => panic!("{other:?}"),
    };
    assert_eq!(missing(&[]), "E20_HOST");
    assert_eq!(missing(&[("SETPOINT_ADDR", "1"), ("INVERTER_HOST", "b")]), "E20_HOST");
    assert_eq!(missing(&[("E20_HOST", "a")]), "INVERTER_HOST");
    assert_eq!(missing(&[("E20_HOST", "a"), ("INVERTER_HOST", "b")]), "SETPOINT_ADDR");
    assert_eq!(
        Config::from_env(&vec![]).unwrap_err().message(),
        "missing required env var E20_HOST"
    );
}

#[test]
fn earlier_faults_hide_later_ones() {
    let v = vars(&[("E20_HOST", "a"), ("INVERTER_HOST", "b"), ("DRY_RUN", "maybe")]);
    assert_eq!(
        Config::from_env(&v).unwrap_err().message(),
        "invalid config: DRY_RUN: not a bool: 'maybe'"
    );
    assert_eq!(
        message(&[("HEALTH_PORT", "x"), ("EXPORT_LIMIT_W", "y"), ("E20_PORT", "z")]),
        "invalid config: EXPORT_LIMIT_W: invalid float literal"
    );
    assert_eq!(
        message(&[("HEALTH_PORT", "x"), ("CURRENT_LIMIT_SCALE", "y")]),
        "invalid config: CURRENT_LIMIT_SCALE: invalid float literal"
    );
}

#[test]
fn integer_faults_read_like_those_of_std() {
    for value in ["", "x", "-1", "65536", "99999999999999999999999", "1 ", "+", "1.0"] {
        let expected = value.parse::<u16>().unwrap_err();
        assert_eq!(
            message(&[("E20_PORT", value)]),
            format!("invalid config: E20_PORT: {expected}")
        );
        assert_eq!(
            message(&[("SETPOINT_ADDR", value)]),
            format!("invalid config: SETPOINT_ADDR: {expected}")
        );
    }
    let expected = "256".parse::<u8>().unwrap_err();
    assert_eq!(
        message(&[("INVERTER_UNIT_ID_CTRL", "256")]),
        format!("invalid config: INVERTER_UNIT_ID_CTRL: {expected}")
    );
    let expected = "18446744073709551616".parse::<u64>().unwrap_err();
    assert_eq!(
        message(&[("TELEGRAM_STALENESS_MS", "18446744073709551616")]),
        format!("invalid config: TELEGRAM_STALENESS_MS: {expected}")
    );
}

#[test]
fn number_faults_read_like_those_of_std() {
    for value in ["", "x", "1,5", ".", "1e", " 1", "--1"] {
        let expected = value.parse::<f64>().unwrap_err();
        assert_eq!(
            message(&[("EXPORT_LIMIT_W", value)]),
            format!("invalid config: EXPORT_LIMIT_W: {expected}")
        );
    }
}

#[test]
fn unknown_names_are_reported_in_upper_case() {
    assert_eq!(
        message(&[("AC_POWER_TYPE", "float")]),
        "invalid config: AC_POWER_TYPE: invalid config: unknown register type 'FLOAT'"
    );
    assert_eq!(
        message(&[("SETPOINT_ENCODING", "amps")]),
        "invalid config: SETPOINT_ENCODING: invalid config: unknown setpoint encoding 'AMPS'"
    );
}

#[test]
fn register_types_and_encodings_have_names() {
    assert_eq!(RegisterType::from_str("u16").unwrap(), RegisterType::U16);
    assert_eq!(RegisterType::from_str("S16").unwrap(), RegisterType::S16);
    assert_eq!(RegisterType::from_str("U32").unwrap(), RegisterType::U32);
    assert_eq!(RegisterType::from_str("s32").unwrap(), RegisterType::S32);
    assert_eq!(
        RegisterType::from_str("é").unwrap_err().message(),
        "invalid config: unknown register type 'é'"
    );
    for name in ["W", "w", "Watts", "WATTS"] {
        assert_eq!(SetpointEncoding::from_str(name).unwrap(), SetpointEncoding::Watts);
    }
    for name in ["PCT", "percent", "%"] {
        assert_eq!(SetpointEncoding::from_str(name).unwrap(), SetpointEncoding::Percent);
    }
    assert!(SetpointEncoding::from_str("").is_err());
}

#[test]
fn switches_have_several_words() {
    for word in ["1", "true", "TRUE", "yes", "On"] {
        assert!(with(&[("DRY_RUN", word)]).unwrap().dry_run, "{word}");
    }
    for word in ["0", "false", "No", "OFF"] {
        assert!(!with(&[("DRY_RUN", word)]).unwrap().dry_run, "{word}");
    }
    assert_eq!(message(&[("DRY_RUN", "")]), "invalid config: DRY_RUN: not a bool: ''");
    assert_eq!(message(&[("DRY_RUN", "MAYBE")]), "invalid config: DRY_RUN: not a bool: 'maybe'");
}

#[test]
fn fallback_maximum_defaults_to_the_export_limit() {
    let c = with(&[("EXPORT_LIMIT_W", "600")]).unwrap();
    assert_eq!(f(c.fallback_max_w), 600.0);
    let c = with(&[("EXPORT_LIMIT_W", "600"), ("FALLBACK_MAX_W", "700")]).unwrap();
    assert_eq!(f(c.fallback_max_w), 700.0);
    assert_eq!(f(c.export_limit_w), 600.0);
}
