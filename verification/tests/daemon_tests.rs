use dsmr_sma_limiter::binary64::Binary64;
use dsmr_sma_limiter::config::Config;
use dsmr_sma_limiter::daemon::{power_taken, Action, ControlLoop, Event};
use dsmr_sma_limiter::dsmr::Telegram;
use dsmr_sma_limiter::modbus_client::ModbusIoError;
use dsmr_sma_limiter::selfcheck::SelfCheckError;
use dsmr_sma_limiter::state::AppState;

const MS: u64 = 1_000_000;

fn n(x: f64) -> Binary64 {
    Binary64::from_bits(x.to_bits())
}

fn f(x: Binary64) -> f64 {
    f64::from_bits(x.to_bits())
}

fn config(extra: &[(&str, &str)]) -> Config {
    let mut vars: Vec<(String, String)> = Vec::new();
    for (name, value) in extra {
        vars.push((name.to_string(), value.to_string()));
    }
    for (name, value) in [
        ("E20_HOST", "e20"),
        ("INVERTER_HOST", "sma"),
        ("SETPOINT_ADDR", "40023"),
        ("SETPOINT_SCALE", "0.01"),
        ("DRY_RUN", "false"),
    ] {
        vars.push((name.to_string(), value.to_string()));
    }
    Config::from_env(&vars).unwrap()
}

fn telegram(import_w: f64, export_w: f64) -> Event {
    Event::Received(Telegram { import_w: n(import_w), export_w: n(export_w) })
}

fn lost() -> ModbusIoError {
    ModbusIoError::Transport("lost".to_string())
}

fn sentinel() -> ModbusIoError {
    ModbusIoError::NotImplemented { address: 30775, raw: i32::MIN as i64 }
}

struct Run {
    cfg: Config,
    control: ControlLoop,
    health: AppState,
}

impl Run {
    fn new(extra: &[(&str, &str)]) -> Run {
        let cfg = config(extra);
        let control = ControlLoop::new(&cfg, 0);
        let health = AppState::new(3000 * MS as u128);
        Run { cfg, control, health }
    }

    fn step(&mut self, now: u64, event: Event) -> Action {
        self.control.step(&self.cfg, &mut self.health, now, event)
    }

    /// A loop that is armed and waits for the next telegram.
    fn armed(extra: &[(&str, &str)]) -> Run {
        let mut run = Run::new(extra);
        assert!(matches!(run.step(0, telegram(0.0, 0.0)), Action::Connect));
        assert!(matches!(
            run.step(0, Event::Connected(Ok(n(4000.0)))),
            Action::ReadPower { .. }
        ));
        assert!(matches!(run.step(0, Event::Power(Err(sentinel()))), Action::AwaitTelegram));
        run
    }
}

#[test]
fn first_telegram_connects_and_writes() {
    let mut run = Run::new(&[]);
    assert!(run.control.lapsed());
    assert!(run.control.link().is_none());
    assert!(matches!(run.step(5 * MS, telegram(500.0, 0.0)), Action::Connect));
    assert!(!run.control.lapsed());
    assert!(!run.health.is_healthy(5 * MS));
    match run.step(6 * MS, Event::Connected(Ok(n(4000.0)))) {
        Action::ReadPower { register } => assert_eq!(register.address, 30775),
        other => panic!("{other:?}"),
    }
    assert_eq!(f(run.control.link().unwrap()), 4000.0);
    match run.step(7 * MS, Event::Power(Ok(n(200.0)))) {
        Action::ReadLimit { register, ac_power_w, output } => {
            assert_eq!(register.address, 31405);
            assert_eq!(f(ac_power_w), 200.0);
            assert_eq!(f(output.house_load_w), 700.0);
            assert_eq!(f(output.setpoint_w), 3200.0);
        }
        other => panic!("{other:?}"),
    }
    match run.step(8 * MS, Event::Limit) {
        Action::Write { register, raw } => {
            assert_eq!(register.address, 40023);
            // 3200 W of 4000 W is 80 %, in steps of 0.01 %.
            assert_eq!(raw, 8000);
        }
        other => panic!("{other:?}"),
    }
    assert!(!run.health.is_healthy(8 * MS));
    assert!(matches!(run.step(9 * MS, Event::Written(Ok(()))), Action::AwaitTelegram));
    assert!(run.health.is_healthy(9 * MS));
    // The next telegram goes straight to the inverter.
    assert!(matches!(run.step(1000 * MS, telegram(0.0, 0.0)), Action::ReadPower { .. }));
}

#[test]
fn setpoint_in_watts() {
    let mut run = Run::armed(&[("SETPOINT_ENCODING", "W"), ("SETPOINT_SCALE", "1")]);
    run.step(1, telegram(500.0, 0.0));
    run.step(2, Event::Power(Ok(n(200.0))));
    match run.step(3, Event::Limit) {
        Action::Write { raw, .. } => assert_eq!(raw, 3200),
        other => panic!("{other:?}"),
    }
}

#[test]
fn dry_run_computes_and_does_not_write() {
    let mut run = Run::armed(&[("DRY_RUN", "true")]);
    run.step(1, telegram(500.0, 0.0));
    assert!(matches!(run.step(2, Event::Power(Ok(n(200.0)))), Action::ReadLimit { .. }));
    assert!(matches!(run.step(3, Event::Limit), Action::AwaitTelegram));
    assert!(run.health.is_healthy(3));
}

#[test]
fn stale_telegrams_lapse_and_keep_the_connection() {
    let mut run = Run::armed(&[]);
    assert!(matches!(run.step(3000 * MS, Event::Stale), Action::AwaitTelegram));
    assert!(run.control.lapsed());
    assert!(run.control.link().is_some());
    assert!(run.health.is_healthy(3000 * MS));
    assert!(matches!(run.step(6000 * MS, Event::Stale), Action::AwaitTelegram));
    assert!(!run.health.is_healthy(6000 * MS));
    assert!(matches!(run.step(6001 * MS, telegram(0.0, 0.0)), Action::ReadPower { .. }));
    assert!(!run.control.lapsed());
}

#[test]
fn closed_stream_stops_the_loop() {
    let mut run = Run::new(&[]);
    assert!(matches!(run.step(1, Event::Closed), Action::Stop));
}

#[test]
fn failed_checks_refuse() {
    let mut run = Run::new(&[]);
    run.step(1, telegram(0.0, 0.0));
    let refused = SelfCheckError::FailedChecks(vec!["bad".to_string()]);
    match run.step(2, Event::Connected(Err(refused))) {
        Action::Refuse(issues) => assert_eq!(issues, vec!["bad"]),
        other => panic!("{other:?}"),
    }
}

#[test]
fn failed_connections_are_paced() {
    let mut run = Run::new(&[]);
    run.step(0, telegram(0.0, 0.0));
    assert_eq!(run.control.backoff_ms(), 500);
    let failed = || Event::Connected(Err(SelfCheckError::Modbus(lost())));
    assert!(matches!(run.step(10 * MS, failed()), Action::AwaitTelegram));
    assert_eq!(run.control.backoff_ms(), 1000);
    assert!(matches!(run.step(510 * MS - 1, telegram(0.0, 0.0)), Action::AwaitTelegram));
    assert!(run.health.is_healthy(510 * MS - 1));
    assert!(matches!(run.step(510 * MS, telegram(0.0, 0.0)), Action::Connect));
    run.step(520 * MS, failed());
    assert_eq!(run.control.backoff_ms(), 2000);
    assert!(matches!(run.step(1519 * MS, telegram(0.0, 0.0)), Action::AwaitTelegram));
    assert!(matches!(run.step(1520 * MS, telegram(0.0, 0.0)), Action::Connect));
    run.step(1521 * MS, Event::Connected(Ok(n(4000.0))));
    assert_eq!(run.control.backoff_ms(), 500);
}

#[test]
fn failed_power_reading_drops_the_connection() {
    let mut run = Run::armed(&[]);
    run.step(1, telegram(0.0, 0.0));
    assert!(matches!(run.step(2, Event::Power(Err(lost()))), Action::AwaitTelegram));
    assert!(run.control.link().is_none());
    assert!(run.health.is_healthy(2));
    assert!(matches!(run.step(3, telegram(0.0, 0.0)), Action::Connect));
}

#[test]
fn failed_write_drops_the_connection() {
    let mut run = Run::armed(&[]);
    run.step(1, telegram(0.0, 0.0));
    run.step(2, Event::Power(Ok(n(0.0))));
    run.step(3, Event::Limit);
    assert!(matches!(run.step(4, Event::Written(Err(lost()))), Action::AwaitTelegram));
    assert!(run.control.link().is_none());
    assert!(matches!(run.step(5, telegram(0.0, 0.0)), Action::Connect));
}

#[test]
fn sentinel_power_skips_the_cycle() {
    let mut run = Run::armed(&[]);
    run.step(1, telegram(0.0, 0.0));
    assert!(matches!(run.step(2, Event::Power(Err(sentinel()))), Action::AwaitTelegram));
    assert!(run.control.link().is_some());
}

#[test]
fn sentinel_power_counts_as_zero_if_configured() {
    let mut run = Run::new(&[("WRITE_WHEN_NOT_PRODUCING", "true")]);
    run.step(0, telegram(100.0, 0.0));
    run.step(0, Event::Connected(Ok(n(4000.0))));
    match run.step(1, Event::Power(Err(sentinel()))) {
        Action::ReadLimit { ac_power_w, output, .. } => {
            assert_eq!(f(ac_power_w), 0.0);
            assert_eq!(f(output.setpoint_w), 2600.0);
        }
        other => panic!("{other:?}"),
    }
    match run.step(2, Event::Limit) {
        Action::Write { raw, .. } => assert_eq!(raw, 6500),
        other => panic!("{other:?}"),
    }
}

#[test]
fn each_write_takes_a_telegram() {
    let mut run = Run::armed(&[]);
    let mut writes = 0;
    for i in 1..20u64 {
        let mut action = run.step(i * 1000 * MS, telegram(i as f64, 0.0));
        loop {
            action = match action {
                Action::ReadPower { .. } => run.step(i * 1000 * MS, Event::Power(Ok(n(0.0)))),
                Action::ReadLimit { .. } => run.step(i * 1000 * MS, Event::Limit),
                Action::Write { raw, .. } => {
                    writes += 1;
                    assert_eq!(raw, ((i as f64 + 2500.0) / 4000.0 * 100.0 / 0.01).round() as i32);
                    run.step(i * 1000 * MS, Event::Written(Ok(())))
                }
                Action::AwaitTelegram => break,
                other => panic!("{other:?}"),
            };
        }
        assert_eq!(writes, i);
    }
}

#[test]
fn out_of_range_telegrams_are_not_written() {
    for (import, export) in [
        (f64::NAN, 0.0),
        (f64::INFINITY, 0.0),
        (f64::NEG_INFINITY, 0.0),
        (0.0, f64::NAN),
        (0.0, f64::INFINITY),
        (f64::INFINITY, f64::INFINITY),
    ] {
        let mut run = Run::armed(&[]);
        assert!(matches!(run.step(1, telegram(import, export)), Action::ReadPower { .. }));
        let action = run.step(2, Event::Power(Ok(n(0.0))));
        assert!(matches!(action, Action::AwaitTelegram), "{import} {export}: {action:?}");
        assert!(run.control.link().is_some());
        assert!(run.health.is_healthy(2));
        // The next telegram is written again.
        run.step(3, telegram(100.0, 0.0));
        run.step(4, Event::Power(Ok(n(0.0))));
        assert!(matches!(run.step(5, Event::Limit), Action::Write { raw: 6500, .. }));
    }
}

#[test]
fn out_of_range_power_is_not_written() {
    for power in [f64::NAN, f64::INFINITY, f64::NEG_INFINITY] {
        let mut run = Run::armed(&[]);
        run.step(1, telegram(0.0, 0.0));
        assert!(matches!(run.step(2, Event::Power(Ok(n(power)))), Action::AwaitTelegram));
    }
}

#[test]
fn infinite_limits_write_full_power_or_none() {
    for (limit, expected) in [("inf", 10000), ("-inf", 0)] {
        let mut run = Run::armed(&[("EXPORT_LIMIT_W", limit)]);
        run.step(1, telegram(100.0, 0.0));
        assert!(matches!(run.step(2, Event::Power(Ok(n(0.0)))), Action::ReadLimit { .. }));
        match run.step(3, Event::Limit) {
            Action::Write { raw, .. } => assert_eq!(raw, expected),
            other => panic!("{other:?}"),
        }
    }
    let mut run = Run::armed(&[("EXPORT_LIMIT_W", "nan")]);
    run.step(1, telegram(100.0, 0.0));
    assert!(matches!(run.step(2, Event::Power(Ok(n(0.0)))), Action::AwaitTelegram));
}

#[test]
fn infinite_wmax_does_not_cut_the_setpoint() {
    let mut run = Run::new(&[("SETPOINT_ENCODING", "W"), ("SETPOINT_SCALE", "1")]);
    run.step(1, telegram(100.0, 0.0));
    run.step(2, Event::Connected(Ok(n(f64::INFINITY))));
    run.step(3, Event::Power(Ok(n(0.0))));
    assert!(matches!(run.step(4, Event::Limit), Action::Write { raw: 2600, .. }));
}

#[test]
fn setpoints_beyond_their_register_are_not_written() {
    // 2500 W in steps of 0.01 W is 250000, more than 16 bits hold.
    for (reg_type, scale) in [("U16", "0.01"), ("S16", "0.01"), ("U32", "1e-9"), ("S32", "1e-9"), ("U16", "-1"), ("S32", "0"), ("S32", "nan")] {
        let mut run = Run::armed(&[
            ("SETPOINT_ENCODING", "W"),
            ("SETPOINT_TYPE", reg_type),
            ("SETPOINT_SCALE", scale),
        ]);
        run.step(1, telegram(0.0, 0.0));
        assert!(matches!(run.step(2, Event::Power(Ok(n(0.0)))), Action::ReadLimit { .. }));
        let action = run.step(3, Event::Limit);
        assert!(matches!(action, Action::AwaitTelegram), "{reg_type} {scale}: {action:?}");
        assert!(run.control.link().is_some());
    }
    let mut run = Run::armed(&[
        ("SETPOINT_ENCODING", "W"),
        ("SETPOINT_TYPE", "U16"),
        ("SETPOINT_SCALE", "0.1"),
    ]);
    run.step(1, telegram(0.0, 0.0));
    run.step(2, Event::Power(Ok(n(0.0))));
    assert!(matches!(run.step(3, Event::Limit), Action::Write { raw: 25000, .. }));
}

#[test]
fn power_taken_from_a_reading() {
    let skip = config(&[]);
    let go_on = config(&[("WRITE_WHEN_NOT_PRODUCING", "true")]);
    assert_eq!(f(power_taken(&skip, &Ok(n(7.0))).unwrap()), 7.0);
    assert!(power_taken(&skip, &Err(sentinel())).is_none());
    assert_eq!(f(power_taken(&go_on, &Err(sentinel())).unwrap()), 0.0);
    assert!(power_taken(&go_on, &Err(lost())).is_none());
}
