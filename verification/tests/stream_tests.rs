use dsmr_sma_limiter::binary64::Binary64;
use dsmr_sma_limiter::config::probe_port;
use dsmr_sma_limiter::crc::crc16_arc;
use dsmr_sma_limiter::dsmr::{DsmrError, Telegram};
use dsmr_sma_limiter::e20::{next_backoff, Framer, Reader};
use dsmr_sma_limiter::health::{handle, probe_succeeded};
use dsmr_sma_limiter::state::AppState;

fn f(x: Binary64) -> f64 {
    f64::from_bits(x.to_bits())
}

const LINES: [&str; 4] =
    ["/XMX5LGBBFFB123456789\r\n", "\r\n", "1-0:1.7.0(00.421*kW)\r\n", "1-0:2.7.0(01.234*kW)\r\n"];

fn last_line() -> String {
    let crc = crc16_arc(format!("{}!", LINES.concat()).as_bytes());
    format!("!{crc:04X}\r\n")
}

fn check(result: Option<Result<Telegram, DsmrError>>) {
    let telegram = result.unwrap().unwrap();
    assert_eq!(f(telegram.import_w), 421.0);
    assert_eq!(f(telegram.export_w), 1234.0);
}

#[test]
fn telegram_is_framed_by_its_markers() {
    let mut framer = Framer::new();
    for line in LINES {
        assert!(framer.accept_line(line).is_none());
    }
    check(framer.accept_line(&last_line()));
}

#[test]
fn stray_lines_are_ignored() {
    let mut framer = Framer::new();
    assert!(framer.accept_line("1-0:1.7.0(99.999*kW)\r\n").is_none());
    assert!(framer.accept_line("!0000\r\n").is_none());
    assert!(framer.accept_line("").is_none());
    for line in LINES {
        framer.accept_line(line);
    }
    check(framer.accept_line(&last_line()));
    assert!(framer.accept_line(&last_line()).is_none());
}

#[test]
fn new_header_restarts_the_telegram() {
    let mut framer = Framer::new();
    framer.accept_line("/broken\r\n");
    framer.accept_line("1-0:1.7.0(99.999*kW)\r\n");
    for line in LINES {
        framer.accept_line(line);
    }
    check(framer.accept_line(&last_line()));
}

#[test]
fn broken_telegram_does_not_stop_the_stream() {
    let mut framer = Framer::new();
    framer.accept_line("/x\r\n");
    assert!(matches!(
        framer.accept_line("!0001\r\n"),
        Some(Err(DsmrError::CrcMismatch { declared: 1, .. }))
    ));
    for line in LINES {
        framer.accept_line(line);
    }
    check(framer.accept_line(&last_line()));
}

#[test]
fn reader_starts_afresh_on_each_connection() {
    let mut reader = Reader::new(500, 30_000);
    reader.connected();
    reader.accept_line(LINES[0]);
    reader.accept_line(LINES[1]);
    assert_eq!(reader.lost(), 500);
    reader.connected();
    // The rest of the telegram that was cut off.
    assert!(reader.accept_line(LINES[2]).is_none());
    assert!(reader.accept_line(LINES[3]).is_none());
    assert!(reader.accept_line(&last_line()).is_none());
    for line in LINES {
        reader.accept_line(line);
    }
    check(reader.accept_line(&last_line()));
}

#[test]
fn reader_pauses_twice_as_long_after_each_failure() {
    let mut reader = Reader::new(500, 3000);
    assert_eq!(reader.lost(), 500);
    assert_eq!(reader.lost(), 1000);
    assert_eq!(reader.lost(), 2000);
    assert_eq!(reader.lost(), 3000);
    assert_eq!(reader.lost(), 3000);
    reader.connected();
    assert_eq!(reader.lost(), 500);
    assert_eq!(reader.lost(), 1000);
}

#[test]
fn backoff_is_capped() {
    assert_eq!(next_backoff(500, 30_000), 1000);
    assert_eq!(next_backoff(20_000, 30_000), 30_000);
    assert_eq!(next_backoff(u64::MAX, u64::MAX), u64::MAX);
    assert_eq!(next_backoff(1000, 10), 10);
    assert_eq!(next_backoff(0, 10), 0);
}

#[test]
fn health_needs_a_telegram_and_an_action() {
    let mut state = AppState::new(3000);
    assert!(!state.is_healthy(1000));
    state.record_telegram(1000);
    assert!(!state.is_healthy(1000));
    state.record_action(1000);
    assert!(state.is_healthy(1000));
    let mut state = AppState::new(3000);
    state.record_action(1000);
    assert!(!state.is_healthy(1000));
}

#[test]
fn health_lapses_with_the_window() {
    let mut state = AppState::new(3000);
    state.record_telegram(1000);
    state.record_action(1000);
    assert!(state.is_healthy(4000));
    assert!(!state.is_healthy(4001));
    state.record_telegram(10_000);
    assert!(state.is_healthy(10_000));
    assert!(!state.is_healthy(10_001));
    state.record_action(10_001);
    assert!(state.is_healthy(10_001));
    assert!(state.is_healthy(0));
}

#[test]
fn health_endpoint_answers() {
    assert_eq!(handle("/health", true), (200, "ok"));
    assert_eq!(handle("/health", false), (503, "unhealthy"));
    assert_eq!(handle("/", true), (404, "not found"));
    assert_eq!(handle("/health/", true), (404, "not found"));
    assert_eq!(handle("", false), (404, "not found"));
}

#[test]
fn probe_accepts_both_versions_of_http() {
    assert!(probe_succeeded(b"HTTP/1.1 200 OK\r\n"));
    assert!(probe_succeeded(b"HTTP/1.0 200"));
    assert!(!probe_succeeded(b"HTTP/1.1 503 Service Unavailable"));
    assert!(!probe_succeeded(b"HTTP/1.1 20"));
    assert!(!probe_succeeded(b""));
    assert!(!probe_succeeded(b"http/1.1 200 OK"));
}

#[test]
fn probe_port_falls_back_to_the_default() {
    let vars = |v: &str| vec![("HEALTH_PORT".to_string(), v.to_string())];
    assert_eq!(probe_port(&vec![]), 8080);
    assert_eq!(probe_port(&vars("9000")), 9000);
    assert_eq!(probe_port(&vars("65536")), 8080);
    assert_eq!(probe_port(&vars("nine")), 8080);
    assert_eq!(probe_port(&vars("")), 8080);
}
