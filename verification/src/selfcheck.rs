//! Self-check run on every connection: reads back the comm-loss fallback
//! configuration and operating mode, and by default refuses to arm control
//! if they are unsafe.

use crate::binary64::arith;
use crate::binary64::closest;
use crate::binary64::literal;
use crate::binary64::model;
use crate::binary64::whole;
use crate::binary64::Binary64;
use crate::config::{Config, RegisterSpec, SetpointEncoding};
use crate::modbus_client::ModbusIoError;
use crate::text;
use vstd::arithmetic::power2::*;
use vstd::math::*;
use vstd::prelude::*;
use vstd::string::*;

verus! {

/// `Inverter.WModCfg.WCtlComCfg.WCtlComAct` "Active" code. Setpoint writes
/// are ignored without it, whatever the operating mode.
pub const COMM_CONTROL_ACTIVE: u32 = 802;

/// Fallback mode "apply fallback values" code. The other code, 2506
/// ("values maintained"), holds the last setpoint forever on comm loss.
pub const APPLY_FALLBACK_VALUES: i64 = 2507;

/// `Inverter.WModCfg.WMod` "External active power setpoint" code. Other
/// codes: 303 (off), 1077 (manual W), 1078 (manual %).
pub const EXTERNAL_SETPOINT_MODE: i64 = 1079;

pub const MAX_SAFE_TIMEOUT_S: i64 = 30;

/// One more than SMA's NaN for a signed 32-bit register (0x8000 0000).
pub const S32_NAN_END: i64 = -2_147_483_647;

#[derive(Debug)]
pub enum SelfCheckError {
    Modbus(ModbusIoError),
    FailedChecks(Vec<String>),
}

#[derive(Debug)]
pub struct SelfCheckReport {
    pub issues: Vec<String>,
}

pub open spec fn texts(strings: Seq<String>) -> Seq<Seq<char>> {
    strings.map_values(|s: String| s@)
}

/// What is wrong with the operating mode.
pub open spec fn operating_mode_issues(operating_mode: Option<Binary64>) -> Seq<Seq<char>> {
    match operating_mode {
        Some(op_mode) if !arith::equal(op_mode, arith::integer(EXTERNAL_SETPOINT_MODE as int)) => {
            seq![
                "operating mode active power setting is "@ + literal::whole_text(op_mode)
                    + ", expected 1079 (\"External active power setpoint\"); the inverter is ignoring this daemon's setpoint writes"@,
            ]
        },
        _ => Seq::empty(),
    }
}

/// What is wrong with the fallback mode.
pub open spec fn fallback_mode_issues(mode: Binary64) -> Seq<Seq<char>> {
    if !arith::equal(mode, arith::integer(APPLY_FALLBACK_VALUES as int)) {
        seq![
            "fallback mode is "@ + literal::whole_text(mode)
                + ", expected 2507 (\"apply fallback values\"); on comm loss the inverter would hold its last setpoint instead of falling back"@,
        ]
    } else {
        Seq::empty()
    }
}

/// `a <= b`; false if either is a NaN.
pub open spec fn at_most(a: Binary64, b: Binary64) -> bool {
    arith::less(a, b) || arith::equal(a, b)
}

/// `a <= b`; false if either is a NaN.
fn is_at_most(a: Binary64, b: Binary64) -> (r: bool)
    ensures
        r == at_most(a, b),
{
    a.is_less(b) || a.is_equal(b)
}

/// What is wrong with the fallback timeout: it must be positive and at most
/// thirty seconds, which a NaN is not.
pub open spec fn timeout_issues(timeout_s: Binary64) -> Seq<Seq<char>> {
    if !(arith::less(arith::integer(0), timeout_s) && at_most(
        timeout_s,
        arith::integer(MAX_SAFE_TIMEOUT_S as int),
    )) {
        seq![
            "fallback timeout is "@ + literal::whole_text(timeout_s)
                + "s, outside the safe range (0, 30]s"@,
        ]
    } else {
        Seq::empty()
    }
}

/// Whether the fallback value is the NaN of its register, or no number at all.
pub open spec fn never_configured(w: Binary64) -> bool {
    !arith::less(arith::integer(S32_NAN_END as int), w)
}

/// What is wrong with the fallback value: it must be a number, and at most the
/// maximum.
pub open spec fn fallback_value_issues(
    fallback_value_w: Option<Binary64>,
    fallback_max_w: Binary64,
) -> Seq<Seq<char>> {
    match fallback_value_w {
        Some(w) => if never_configured(w) {
            seq![
                "fallback value register read back as NaN (never configured); confirm manually in the inverter's UI that it is set at or below FALLBACK_MAX_W"@,
            ]
        } else if !at_most(w, fallback_max_w) {
            seq![
                "fallback value is "@ + literal::whole_text(w)
                    + " W, which exceeds FALLBACK_MAX_W ("@ + literal::whole_text(fallback_max_w)
                    + " W)"@,
            ]
        } else {
            Seq::empty()
        },
        None => Seq::empty(),
    }
}

/// All that is wrong, in the order in which it is reported.
pub open spec fn issues_of(
    mode: Binary64,
    timeout_s: Binary64,
    fallback_value_w: Option<Binary64>,
    operating_mode: Option<Binary64>,
    fallback_max_w: Binary64,
) -> Seq<Seq<char>> {
    operating_mode_issues(operating_mode) + fallback_mode_issues(mode) + timeout_issues(timeout_s)
        + fallback_value_issues(fallback_value_w, fallback_max_w)
}

/// A message around a number.
fn message(before: &str, x: Binary64, after: &str) -> (r: String)
    ensures
        r@ == before@ + literal::whole_text(x) + after@,
{
    before.to_owned().concat(text::string_of(&x.to_whole_text()).as_str()).concat(after)
}

/// Checks register values against the safety criteria. A `None` register
/// could not be read; the caller warns about it, so it is not an issue.
pub fn evaluate(
    mode: Binary64,
    timeout_s: Binary64,
    fallback_value_w: Option<Binary64>,
    operating_mode: Option<Binary64>,
    fallback_max_w: Binary64,
) -> (r: Vec<String>)
    ensures
        texts(r@) == issues_of(mode, timeout_s, fallback_value_w, operating_mode, fallback_max_w),
{
    let mut issues: Vec<String> = Vec::new();
    if let Some(op_mode) = operating_mode {
        if !op_mode.is_equal(Binary64::from_i64(EXTERNAL_SETPOINT_MODE)) {
            issues.push(
                message(
                    "operating mode active power setting is ",
                    op_mode,
                    ", expected 1079 (\"External active power setpoint\"); the inverter is ignoring this daemon's setpoint writes",
                ),
            );
        }
    }
    assert(texts(issues@) =~= operating_mode_issues(operating_mode));
    if !mode.is_equal(Binary64::from_i64(APPLY_FALLBACK_VALUES)) {
        issues.push(
            message(
                "fallback mode is ",
                mode,
                ", expected 2507 (\"apply fallback values\"); on comm loss the inverter would hold its last setpoint instead of falling back",
            ),
        );
    }
    assert(texts(issues@) =~= operating_mode_issues(operating_mode) + fallback_mode_issues(mode));
    let zero: Binary64 = Binary64::from_i64(0);
    if !(zero.is_less(timeout_s) && is_at_most(timeout_s, Binary64::from_i64(MAX_SAFE_TIMEOUT_S))) {
        issues.push(
            message("fallback timeout is ", timeout_s, "s, outside the safe range (0, 30]s"),
        );
    }
    assert(texts(issues@) =~= operating_mode_issues(operating_mode) + fallback_mode_issues(mode)
        + timeout_issues(timeout_s));
    if let Some(w) = fallback_value_w {
        let nan_end: Binary64 = Binary64::from_i64(S32_NAN_END);
        if !nan_end.is_less(w) {
            issues.push(
                "fallback value register read back as NaN (never configured); confirm manually in the inverter's UI that it is set at or below FALLBACK_MAX_W".to_owned(),
            );
        } else if !is_at_most(w, fallback_max_w) {
            let limit: String = message(" W, which exceeds FALLBACK_MAX_W (", fallback_max_w, " W)");
            let issue: String = message("fallback value is ", w, limit.as_str());
            assert(issue@ =~= fallback_value_issues(fallback_value_w, fallback_max_w)[0]);
            issues.push(issue);
        }
    }
    assert(texts(issues@) =~= issues_of(
        mode,
        timeout_s,
        fallback_value_w,
        operating_mode,
        fallback_max_w,
    ));
    issues
}

/// A percentage of `Inverter.WMax` in watts.
pub open spec fn percent_in_watts(fallback_pct: Binary64, wmax_w: Binary64) -> Binary64 {
    arith::product(wmax_w, arith::quotient(fallback_pct, arith::integer(100)))
}

/// Converts a percentage of `Inverter.WMax` to watts.
pub fn percent_of_wmax_to_watts(fallback_pct: Binary64, wmax_w: Binary64) -> (r: Binary64)
    ensures
        r == percent_in_watts(fallback_pct, wmax_w),
{
    wmax_w.times(fallback_pct.divided_by(Binary64::from_i64(100)))
}

/// Whether `issues` block arming.
pub fn decide(issues: Vec<String>, enforce: bool) -> (r: Result<(), SelfCheckError>)
    ensures
        r == (if issues@.len() > 0 && enforce {
            Err(SelfCheckError::FailedChecks(issues))
        } else {
            Ok(())
        }),
{
    if issues.len() == 0 || !enforce {
        Ok(())
    } else {
        Err(SelfCheckError::FailedChecks(issues))
    }
}

/// How far a new connection has come.
#[derive(Clone, Copy, Debug)]
pub enum Arming {
    /// Inverter.WMax is to be read. Without it, no setpoint or percentage is
    /// meaningful.
    WMax,
    /// Control via communication is to be activated.
    Activation { wmax_w: Binary64 },
    /// The fallback mode is to be read.
    Mode { wmax_w: Binary64 },
    /// The fallback timeout is to be read.
    Timeout { wmax_w: Binary64, mode: Binary64 },
    /// The fallback value is to be read.
    FallbackValue { wmax_w: Binary64, mode: Binary64, timeout_s: Binary64 },
    /// The operating mode is to be read.
    OperatingMode {
        wmax_w: Binary64,
        mode: Binary64,
        timeout_s: Binary64,
        fallback_value_w: Option<Binary64>,
    },
}

/// What to ask the inverter next.
#[derive(Clone, Copy, Debug)]
pub enum Request {
    Read(RegisterSpec),
    Write { address: u16, value: u32 },
}

/// What a reply of the inverter leads to.
#[derive(Debug)]
pub enum ArmStep {
    /// There is more to ask.
    Ask(Arming),
    /// Everything has been read; `decide` says whether the report blocks arming.
    Checked { wmax_w: Binary64, report: SelfCheckReport },
    /// The connection is of no use.
    Failed(ModbusIoError),
}

/// What a step says.
#[verifier::ext_equal]
pub enum Progress {
    Ask(Arming),
    Checked { wmax_w: Binary64, issues: Seq<Seq<char>> },
    Failed(ModbusIoError),
}

impl View for ArmStep {
    type V = Progress;

    open spec fn view(&self) -> Progress {
        match *self {
            ArmStep::Ask(arming) => Progress::Ask(arming),
            ArmStep::Checked { wmax_w, report } => Progress::Checked {
                wmax_w,
                issues: texts(report.issues@),
            },
            ArmStep::Failed(e) => Progress::Failed(e),
        }
    }
}

/// What to ask the inverter at this point.
pub open spec fn requested(arming: Arming, cfg: Config) -> Request {
    match arming {
        Arming::WMax => Request::Read(cfg.inverter_wmax_reg),
        Arming::Activation { .. } => Request::Write {
            address: cfg.comm_control_activate_addr,
            value: COMM_CONTROL_ACTIVE,
        },
        Arming::Mode { .. } => Request::Read(cfg.fallback_mode_reg),
        Arming::Timeout { .. } => Request::Read(cfg.fallback_timeout_reg),
        Arming::FallbackValue { .. } => Request::Read(cfg.fallback_value_reg),
        Arming::OperatingMode { .. } => Request::Read(cfg.operating_mode_reg),
    }
}

/// Whether control via communication is activated on this connection.
pub open spec fn activates(cfg: Config) -> bool {
    cfg.comm_control_activate && !cfg.dry_run
}

/// What follows the reading of Inverter.WMax.
pub open spec fn armed_from(cfg: Config, wmax_w: Binary64) -> Arming {
    if activates(cfg) {
        Arming::Activation { wmax_w }
    } else {
        Arming::Mode { wmax_w }
    }
}

/// A reading of the fallback value in watts.
pub open spec fn fallback_watts(
    cfg: Config,
    wmax_w: Binary64,
    reading: Result<Binary64, ModbusIoError>,
) -> Option<Binary64> {
    match reading {
        Ok(raw) => Some(
            if cfg.fallback_value_encoding == SetpointEncoding::Percent {
                percent_in_watts(raw, wmax_w)
            } else {
                raw
            },
        ),
        Err(_) => None,
    }
}

/// What a reading leads to. Failing to read the fallback value or operating
/// mode does not end the check.
pub open spec fn after_reading(
    arming: Arming,
    cfg: Config,
    reading: Result<Binary64, ModbusIoError>,
) -> Progress {
    match arming {
        Arming::FallbackValue { wmax_w, mode, timeout_s } => Progress::Ask(
            Arming::OperatingMode {
                wmax_w,
                mode,
                timeout_s,
                fallback_value_w: fallback_watts(cfg, wmax_w, reading),
            },
        ),
        Arming::OperatingMode { wmax_w, mode, timeout_s, fallback_value_w } => Progress::Checked {
            wmax_w,
            issues: issues_of(
                mode,
                timeout_s,
                fallback_value_w,
                reading.ok(),
                cfg.fallback_max_w,
            ),
        },
        _ => match reading {
            Err(e) => Progress::Failed(e),
            Ok(x) => match arming {
                Arming::Mode { wmax_w } => Progress::Ask(Arming::Timeout { wmax_w, mode: x }),
                Arming::Timeout { wmax_w, mode } => Progress::Ask(
                    Arming::FallbackValue { wmax_w, mode, timeout_s: x },
                ),
                _ => Progress::Ask(armed_from(cfg, x)),
            },
        },
    }
}

/// What the outcome of the activating write leads to.
pub open spec fn after_write(wmax_w: Binary64, written: Result<(), ModbusIoError>) -> Progress {
    match written {
        Ok(_) => Progress::Ask(Arming::Mode { wmax_w }),
        Err(e) => Progress::Failed(e),
    }
}

/// Reads back the fallback and operating mode registers.
pub fn check_fallback_safe(wmax_w: Binary64) -> (r: Arming)
    ensures
        r == (Arming::Mode { wmax_w }),
{
    Arming::Mode { wmax_w }
}

/// Activates control via communication if configured, then runs the
/// self-check.
pub fn arm(cfg: &Config, wmax_w: Binary64) -> (r: Arming)
    ensures
        r == armed_from(*cfg, wmax_w),
{
    if cfg.comm_control_activate && !cfg.dry_run {
        Arming::Activation { wmax_w }
    } else {
        check_fallback_safe(wmax_w)
    }
}

impl Arming {
    /// A new connection.
    pub fn new() -> (r: Arming)
        ensures
            r is WMax,
    {
        Arming::WMax
    }

    /// What to ask the inverter at this point.
    pub fn request(&self, cfg: &Config) -> (r: Request)
        ensures
            r == requested(*self, *cfg),
    {
        match self {
            Arming::WMax => Request::Read(cfg.inverter_wmax_reg),
            Arming::Activation { .. } => Request::Write {
                address: cfg.comm_control_activate_addr,
                value: COMM_CONTROL_ACTIVE,
            },
            Arming::Mode { .. } => Request::Read(cfg.fallback_mode_reg),
            Arming::Timeout { .. } => Request::Read(cfg.fallback_timeout_reg),
            Arming::FallbackValue { .. } => Request::Read(cfg.fallback_value_reg),
            Arming::OperatingMode { .. } => Request::Read(cfg.operating_mode_reg),
        }
    }

    /// Takes the reading that was asked for.
    pub fn on_reading(self, cfg: &Config, reading: Result<Binary64, ModbusIoError>) -> (r: ArmStep)
        requires
            requested(self, *cfg) is Read,
        ensures
            r@ == after_reading(self, *cfg, reading),
    {
        match self {
            Arming::WMax => match reading {
                Ok(wmax_w) => ArmStep::Ask(arm(cfg, wmax_w)),
                Err(e) => ArmStep::Failed(e),
            },
            Arming::Activation { wmax_w } => ArmStep::Ask(Arming::Activation { wmax_w }),
            Arming::Mode { wmax_w } => match reading {
                Ok(mode) => ArmStep::Ask(Arming::Timeout { wmax_w, mode }),
                Err(e) => ArmStep::Failed(e),
            },
            Arming::Timeout { wmax_w, mode } => match reading {
                Ok(timeout_s) => ArmStep::Ask(Arming::FallbackValue { wmax_w, mode, timeout_s }),
                Err(e) => ArmStep::Failed(e),
            },
            Arming::FallbackValue { wmax_w, mode, timeout_s } => {
                let fallback_value_w: Option<Binary64> = match reading {
                    Ok(raw) => match cfg.fallback_value_encoding {
                        SetpointEncoding::Percent => Some(percent_of_wmax_to_watts(raw, wmax_w)),
                        SetpointEncoding::Watts => Some(raw),
                    },
                    Err(_) => None,
                };
                ArmStep::Ask(Arming::OperatingMode { wmax_w, mode, timeout_s, fallback_value_w })
            },
            Arming::OperatingMode { wmax_w, mode, timeout_s, fallback_value_w } => {
                let operating_mode: Option<Binary64> = match reading {
                    Ok(op_mode) => Some(op_mode),
                    Err(_) => None,
                };
                let issues: Vec<String> = evaluate(
                    mode,
                    timeout_s,
                    fallback_value_w,
                    operating_mode,
                    cfg.fallback_max_w,
                );
                ArmStep::Checked { wmax_w, report: SelfCheckReport { issues } }
            },
        }
    }

    /// Takes the outcome of the write that was asked for.
    pub fn on_written(self, written: Result<(), ModbusIoError>) -> (r: ArmStep)
        requires
            self is Activation,
        ensures
            r@ == after_write(self->Activation_wmax_w, written),
    {
        match self {
            Arming::Activation { wmax_w } => match written {
                Ok(_) => ArmStep::Ask(check_fallback_safe(wmax_w)),
                Err(e) => ArmStep::Failed(e),
            },
            other => ArmStep::Ask(other),
        }
    }
}

/// The `WMax` with which control is armed: once everything has been read, if
/// there are no issues or they are not enforced.
pub open spec fn armed_with(progress: Progress, cfg: Config) -> Option<Binary64> {
    match progress {
        Progress::Checked { wmax_w, issues } => if issues.len() > 0 && cfg.selfcheck_enforce {
            None
        } else {
            Some(wmax_w)
        },
        _ => None,
    }
}

/// What comes of arming: Inverter.WMax, or why control is not armed; nothing yet
/// while there is more to ask.
pub fn outcome(step: ArmStep, cfg: &Config) -> (r: Option<Result<Binary64, SelfCheckError>>)
    ensures
        match step {
            ArmStep::Ask(_) => r is None,
            ArmStep::Failed(e) => r == Some(
                Err::<Binary64, SelfCheckError>(SelfCheckError::Modbus(e)),
            ),
            ArmStep::Checked { wmax_w, report } => r == Some(
                if report.issues@.len() > 0 && cfg.selfcheck_enforce {
                    Err(SelfCheckError::FailedChecks(report.issues))
                } else {
                    Ok(wmax_w)
                },
            ),
        },
        armed_with(step@, *cfg) == (match r {
            Some(Ok(wmax_w)) => Some(wmax_w),
            _ => None,
        }),
{
    match step {
        ArmStep::Ask(_) => None,
        ArmStep::Failed(e) => Some(Err(SelfCheckError::Modbus(e))),
        ArmStep::Checked { wmax_w, report } => match decide(report.issues, cfg.selfcheck_enforce) {
            Ok(()) => Some(Ok(wmax_w)),
            Err(e) => Some(Err(e)),
        },
    }
}

/// A reply of the inverter.
pub enum Reply {
    Reading(Result<Binary64, ModbusIoError>),
    Written(Result<(), ModbusIoError>),
}

/// Whether the reply is one to what was asked.
pub open spec fn answers(arming: Arming, reply: Reply) -> bool {
    arming is Activation <==> reply is Written
}

/// One more reply.
pub open spec fn advance(progress: Progress, cfg: Config, reply: Reply) -> Progress {
    match progress {
        Progress::Ask(arming) => match reply {
            Reply::Reading(reading) => after_reading(arming, cfg, reading),
            Reply::Written(written) => after_write(arming->Activation_wmax_w, written),
        },
        _ => progress,
    }
}

/// How far a connection has come after these replies.
pub open spec fn progress_of(cfg: Config, replies: Seq<Reply>) -> Progress
    decreases replies.len(),
{
    if replies.len() == 0 {
        Progress::Ask(Arming::WMax)
    } else {
        advance(progress_of(cfg, replies.drop_last()), cfg, replies.last())
    }
}

/// Whether each reply is one to what was asked.
pub open spec fn is_dialogue(cfg: Config, replies: Seq<Reply>) -> bool
    decreases replies.len(),
{
    replies.len() == 0 || {
        &&& is_dialogue(cfg, replies.drop_last())
        &&& progress_of(cfg, replies.drop_last()) matches Progress::Ask(arming) && answers(
            arming,
            replies.last(),
        )
    }
}

/// Whether the reply is the reading `x`.
pub open spec fn is_reading(reply: Reply, x: Binary64) -> bool {
    reply == Reply::Reading(Ok(x))
}

/// How many replies come before the fallback mode.
pub open spec fn opening(cfg: Config) -> int {
    if activates(cfg) {
        2
    } else {
        1
    }
}

/// Whether the first replies are the reading of `WMax` and, if control is to be
/// activated, the successful write.
pub open spec fn is_opened(cfg: Config, replies: Seq<Reply>, wmax_w: Binary64) -> bool {
    &&& replies.len() >= opening(cfg)
    &&& is_reading(replies[0], wmax_w)
    &&& activates(cfg) ==> replies[1] == Reply::Written(Ok(()))
}

/// Whether the replies are those of a complete check, with these readings of the
/// fallback mode and timeout.
pub open spec fn is_complete(
    cfg: Config,
    replies: Seq<Reply>,
    wmax_w: Binary64,
    mode: Binary64,
    timeout_s: Binary64,
) -> bool {
    let k = opening(cfg);
    &&& replies.len() == k + 4
    &&& is_opened(cfg, replies, wmax_w)
    &&& is_reading(replies[k], mode)
    &&& is_reading(replies[k + 1], timeout_s)
    &&& replies[k + 2] is Reading
    &&& replies[k + 3] is Reading
}

/// The fallback value in watts, as a complete check has read it.
pub open spec fn fallback_read(cfg: Config, replies: Seq<Reply>, wmax_w: Binary64) -> Option<
    Binary64,
> {
    fallback_watts(cfg, wmax_w, replies[opening(cfg) + 2]->Reading_0)
}

/// The operating mode, as a complete check has read it.
pub open spec fn operating_mode_read(cfg: Config, replies: Seq<Reply>) -> Option<Binary64> {
    replies[opening(cfg) + 3]->Reading_0.ok()
}

/// Whether what a connection has come to is what the inverter has replied.
pub open spec fn is_reported(cfg: Config, progress: Progress, replies: Seq<Reply>) -> bool {
    let k = opening(cfg);
    match progress {
        Progress::Ask(Arming::WMax) => replies.len() == 0,
        Progress::Ask(Arming::Activation { wmax_w }) => {
            &&& activates(cfg)
            &&& replies.len() == 1
            &&& is_reading(replies[0], wmax_w)
        },
        Progress::Ask(Arming::Mode { wmax_w }) => {
            &&& replies.len() == k
            &&& is_opened(cfg, replies, wmax_w)
        },
        Progress::Ask(Arming::Timeout { wmax_w, mode }) => {
            &&& replies.len() == k + 1
            &&& is_opened(cfg, replies, wmax_w)
            &&& is_reading(replies[k], mode)
        },
        Progress::Ask(Arming::FallbackValue { wmax_w, mode, timeout_s }) => {
            &&& replies.len() == k + 2
            &&& is_opened(cfg, replies, wmax_w)
            &&& is_reading(replies[k], mode)
            &&& is_reading(replies[k + 1], timeout_s)
        },
        Progress::Ask(
            Arming::OperatingMode { wmax_w, mode, timeout_s, fallback_value_w },
        ) => {
            &&& replies.len() == k + 3
            &&& is_opened(cfg, replies, wmax_w)
            &&& is_reading(replies[k], mode)
            &&& is_reading(replies[k + 1], timeout_s)
            &&& replies[k + 2] is Reading
            &&& fallback_value_w == fallback_read(cfg, replies, wmax_w)
        },
        Progress::Checked { wmax_w, issues } => exists|mode: Binary64, timeout_s: Binary64|
            {
                &&& #[trigger] is_complete(cfg, replies, wmax_w, mode, timeout_s)
                &&& issues == issues_of(
                    mode,
                    timeout_s,
                    fallback_read(cfg, replies, wmax_w),
                    operating_mode_read(cfg, replies),
                    cfg.fallback_max_w,
                )
            },
        Progress::Failed(e) => replies.len() > 0 && (replies.last() == Reply::Reading(Err(e))
            || replies.last() == Reply::Written(Err(e))),
    }
}

/// A dry run asks for no write.
pub proof fn law_dry_run_does_not_activate(cfg: Config, replies: Seq<Reply>)
    requires
        cfg.dry_run,
        is_dialogue(cfg, replies),
    ensures
        progress_of(cfg, replies) matches Progress::Ask(arming) ==> requested(arming, cfg) is Read,
{
    law_report_is_of_readings(cfg, replies);
}

/// Whatever a connection has come to rests on replies of the inverter: a report
/// holds the issues of the registers as they read on this connection, after
/// control was activated if it is to be, and a failure is the error of the last
/// reply.
pub proof fn law_report_is_of_readings(cfg: Config, replies: Seq<Reply>)
    requires
        is_dialogue(cfg, replies),
    ensures
        is_reported(cfg, progress_of(cfg, replies), replies),
    decreases replies.len(),
{
    if replies.len() > 0 {
        let before = replies.drop_last();
        law_report_is_of_readings(cfg, before);
        let last = replies.len() - 1;
        assert(replies[last] == replies.last());
        assert forall|i: int| 0 <= i < last implies #[trigger] replies[i] == before[i] by {}
        if let Progress::Ask(
            Arming::OperatingMode { wmax_w, mode, timeout_s, .. },
        ) = progress_of(cfg, before) {
            assert(is_complete(cfg, replies, wmax_w, mode, timeout_s));
        }
        if let Reply::Written(Ok(done)) = replies.last() {
            assert(done == ());
        }
    }
}

/// Control is armed only with the `WMax` that was read on this connection, after
/// every register has been asked for, and only if the readings are safe or that
/// is not enforced.
pub proof fn law_armed_means_checked(cfg: Config, replies: Seq<Reply>, wmax_w: Binary64)
    requires
        is_dialogue(cfg, replies),
        armed_with(progress_of(cfg, replies), cfg) == Some(wmax_w),
    ensures
        is_reading(replies[0], wmax_w),
        exists|mode: Binary64, timeout_s: Binary64|
            {
                &&& #[trigger] is_complete(cfg, replies, wmax_w, mode, timeout_s)
                &&& cfg.selfcheck_enforce ==> is_safe(
                    mode,
                    timeout_s,
                    fallback_read(cfg, replies, wmax_w),
                    operating_mode_read(cfg, replies),
                    cfg.fallback_max_w,
                )
            },
{
    law_report_is_of_readings(cfg, replies);
    let issues = progress_of(cfg, replies)->issues;
    let (mode, timeout_s) = choose|mode: Binary64, timeout_s: Binary64|
        {
            &&& #[trigger] is_complete(cfg, replies, wmax_w, mode, timeout_s)
            &&& issues == issues_of(
                mode,
                timeout_s,
                fallback_read(cfg, replies, wmax_w),
                operating_mode_read(cfg, replies),
                cfg.fallback_max_w,
            )
        };
    law_no_issues_means_safe(
        mode,
        timeout_s,
        fallback_read(cfg, replies, wmax_w),
        operating_mode_read(cfg, replies),
        cfg.fallback_max_w,
    );
    assert(is_complete(cfg, replies, wmax_w, mode, timeout_s));
}

/// The replies on a connection where nothing fails but, perhaps, the last two
/// readings.
pub open spec fn full_dialogue(
    cfg: Config,
    wmax_w: Binary64,
    mode: Binary64,
    timeout_s: Binary64,
    fallback_value: Result<Binary64, ModbusIoError>,
    operating_mode: Result<Binary64, ModbusIoError>,
) -> Seq<Reply> {
    let start = Seq::empty().push(Reply::Reading(Ok(wmax_w)));
    let active = if activates(cfg) {
        start.push(Reply::Written(Ok(())))
    } else {
        start
    };
    active.push(Reply::Reading(Ok(mode))).push(Reply::Reading(Ok(timeout_s))).push(
        Reply::Reading(fallback_value),
    ).push(Reply::Reading(operating_mode))
}

/// Once these replies are in, the check is complete and reports the issues of
/// these readings.
pub proof fn law_check_completes(
    cfg: Config,
    wmax_w: Binary64,
    mode: Binary64,
    timeout_s: Binary64,
    fallback_value: Result<Binary64, ModbusIoError>,
    operating_mode: Result<Binary64, ModbusIoError>,
)
    ensures
        ({
            let replies = full_dialogue(
                cfg,
                wmax_w,
                mode,
                timeout_s,
                fallback_value,
                operating_mode,
            );
            &&& is_dialogue(cfg, replies)
            &&& progress_of(cfg, replies) == (Progress::Checked {
                wmax_w,
                issues: issues_of(
                    mode,
                    timeout_s,
                    fallback_watts(cfg, wmax_w, fallback_value),
                    operating_mode.ok(),
                    cfg.fallback_max_w,
                ),
            })
        }),
{
    let empty = Seq::<Reply>::empty();
    let start = empty.push(Reply::Reading(Ok(wmax_w)));
    lemma_one_more(cfg, empty, Reply::Reading(Ok(wmax_w)));
    let active = if activates(cfg) {
        lemma_one_more(cfg, start, Reply::Written(Ok(())));
        start.push(Reply::Written(Ok(())))
    } else {
        start
    };
    let second = active.push(Reply::Reading(Ok(mode)));
    let third = second.push(Reply::Reading(Ok(timeout_s)));
    let fourth = third.push(Reply::Reading(fallback_value));
    lemma_one_more(cfg, active, Reply::Reading(Ok(mode)));
    lemma_one_more(cfg, second, Reply::Reading(Ok(timeout_s)));
    lemma_one_more(cfg, third, Reply::Reading(fallback_value));
    lemma_one_more(cfg, fourth, Reply::Reading(operating_mode));
}

/// On such a connection control is armed exactly if the readings are safe or
/// that is not enforced.
pub proof fn law_safe_inverter_is_armed(
    cfg: Config,
    wmax_w: Binary64,
    mode: Binary64,
    timeout_s: Binary64,
    fallback_value: Result<Binary64, ModbusIoError>,
    operating_mode: Result<Binary64, ModbusIoError>,
)
    ensures
        ({
            let replies = full_dialogue(
                cfg,
                wmax_w,
                mode,
                timeout_s,
                fallback_value,
                operating_mode,
            );
            armed_with(progress_of(cfg, replies), cfg) == if is_safe(
                mode,
                timeout_s,
                fallback_watts(cfg, wmax_w, fallback_value),
                operating_mode.ok(),
                cfg.fallback_max_w,
            ) || !cfg.selfcheck_enforce {
                Some(wmax_w)
            } else {
                None
            }
        }),
{
    law_check_completes(cfg, wmax_w, mode, timeout_s, fallback_value, operating_mode);
    law_no_issues_means_safe(
        mode,
        timeout_s,
        fallback_watts(cfg, wmax_w, fallback_value),
        operating_mode.ok(),
        cfg.fallback_max_w,
    );
}

proof fn lemma_one_more(cfg: Config, replies: Seq<Reply>, reply: Reply)
    ensures
        progress_of(cfg, replies.push(reply)) == advance(progress_of(cfg, replies), cfg, reply),
        is_dialogue(cfg, replies.push(reply)) <==> is_dialogue(cfg, replies) && progress_of(
            cfg,
            replies,
        ) is Ask && answers(progress_of(cfg, replies)->Ask_0, reply),
{
    assert(replies.push(reply).drop_last() == replies);
}

/// A failed reading of the fallback value or the operating mode does not end
/// the check.
pub proof fn law_optional_readings(
    arming: Arming,
    cfg: Config,
    reading: Result<Binary64, ModbusIoError>,
)
    requires
        arming is FallbackValue || arming is OperatingMode,
    ensures
        !(after_reading(arming, cfg, reading) is Failed),
{
}

/// The safety criteria. A register that could not be read is not judged.
pub open spec fn is_safe(
    mode: Binary64,
    timeout_s: Binary64,
    fallback_value_w: Option<Binary64>,
    operating_mode: Option<Binary64>,
    fallback_max_w: Binary64,
) -> bool {
    &&& operating_mode matches Some(op_mode) ==> op_mode.is_integer(1079)
    &&& mode.is_integer(2507)
    &&& !timeout_s.nan() && 0 < timeout_s.value() <= 30 * model::one()
    &&& fallback_value_w matches Some(w) ==> !w.nan() && !fallback_max_w.nan() && -2_147_483_647
        * model::one() < w.value() <= fallback_max_w.value()
}

/// The self-check finds nothing exactly if the inverter listens to setpoints,
/// applies its fallback values after at most thirty seconds, and falls back to
/// no more than the maximum.
pub proof fn law_no_issues_means_safe(
    mode: Binary64,
    timeout_s: Binary64,
    fallback_value_w: Option<Binary64>,
    operating_mode: Option<Binary64>,
    fallback_max_w: Binary64,
)
    ensures
        issues_of(mode, timeout_s, fallback_value_w, operating_mode, fallback_max_w).len() == 0
            <==> is_safe(mode, timeout_s, fallback_value_w, operating_mode, fallback_max_w),
{
    whole::lemma_integer(1079);
    whole::lemma_integer(2507);
    whole::lemma_integer(0);
    whole::lemma_integer(30);
    whole::lemma_integer(-2_147_483_647);
    assert(0 * model::one() == 0);
    lemma_equal_is_finite(mode, 2507);
    if operating_mode is Some {
        lemma_equal_is_finite(operating_mode->0, 1079);
    }
}

/// A number that equals a small integer is finite.
proof fn lemma_equal_is_finite(x: Binary64, k: int)
    requires
        whole::is_small(k),
    ensures
        arith::equal(x, arith::integer(k)) <==> x.is_integer(k),
{
    whole::lemma_integer(k);
    if x.infinite() {
        let k = arith::integer(k);
        model::lemma_magnitude_increases(k.unsigned(), x.unsigned());
    }
}

/// A percentage of `WMax` in watts, times a hundred, is `WMax` times the
/// percentage, up to three units in the last place.
pub proof fn law_percent_in_watts(fallback_pct: Binary64, wmax_w: Binary64)
    requires
        fallback_pct.finite(),
        wmax_w.finite(),
        percent_in_watts(fallback_pct, wmax_w).finite(),
    ensures
        ({
            let w = percent_in_watts(fallback_pct, wmax_w).value();
            0x20_0000_0000_0000 * abs(
                100 * (w * pow2(1074)) - wmax_w.value() * fallback_pct.value(),
            ) <= 100 * (pow2(1074) * (3 * abs(w) + 2 * 0x10_0000_0000_0000) + abs(wmax_w.value())
                * 0x10_0000_0000_0000)
        }),
{
    let hundred = arith::integer(100);
    let quotient = arith::quotient(fallback_pct, hundred);
    let one = pow2(1074) as int;
    let h: int = 0x10_0000_0000_0000;
    lemma_pow2_pos(1074);
    whole::lemma_integer(100);
    assert(hundred.value() > 0) by (nonlinear_arith)
        requires
            hundred.value() == 100 * one,
            one > 0,
    ;
    closest::law_quotient_is_closest(fallback_pct, hundred);
    closest::law_special_results(quotient, wmax_w);
    closest::law_special_results(wmax_w, quotient);
    closest::law_quotient_error(fallback_pct, hundred);
    closest::law_product_error(wmax_w, quotient);
    let v = percent_in_watts(fallback_pct, wmax_w).value();
    let q = quotient.value();
    let w = wmax_w.value();
    let p = fallback_pct.value();
    let a = 100 * q - p;
    let b = v * one - w * q;
    assert(q * (100 * one) - p * one == a * one && abs(100 * one) == 100 * one && abs(a * one)
        == abs(a) * one) by (nonlinear_arith)
        requires
            a == 100 * q - p,
            one > 0,
    ;
    assert(2 * abs(a) * h <= 100 * (abs(q) + h)) by (nonlinear_arith)
        requires
            2 * (abs(a) * one) * h <= 100 * one * (abs(q) + h),
            one > 0,
            h == 0x10_0000_0000_0000,
    ;
    let big_v = abs(v) as int;
    let big_q = abs(q) as int;
    let big_w = abs(w) as int;
    let t = 100 * (v * one) - w * p;
    assert(t == 100 * b + w * a) by (nonlinear_arith)
        requires
            t == 100 * (v * one) - w * p,
            a == 100 * q - p,
            b == v * one - w * q,
    ;
    assert(abs(w * a) == big_w * abs(a) && abs(w * q) == big_w * big_q && abs(v * one) == big_v
        * one) by (nonlinear_arith)
        requires
            big_w == abs(w),
            big_q == abs(q),
            big_v == abs(v),
            one > 0,
    ;
    let x = big_w * abs(a);
    assert(2 * h * x <= 100 * (big_w * big_q + big_w * h)) by (nonlinear_arith)
        requires
            x == big_w * abs(a),
            2 * abs(a) * h <= 100 * (big_q + h),
            big_w >= 0,
    ;
    assert(one * (big_v + h) == one * big_v + one * h && one * (3 * big_v + 2 * h) == 3 * (one
        * big_v) + 2 * (one * h) && big_v * one == one * big_v && one * big_v >= 0)
        by (nonlinear_arith)
        requires
            one > 0,
            big_v >= 0,
    ;
    assert(big_w * big_q <= 2 * (one * big_v) + one * h);
}

/// The percentage in watts, step by step, each of which rounds once: a hundredth
/// of it, times `WMax`. What is no number gives none.
pub proof fn law_percent_in_watts_is_closest(fallback_pct: Binary64, wmax_w: Binary64) -> (share:
    Binary64)
    ensures
        fallback_pct.finite() && wmax_w.finite() ==> share.finite() && closest::closest(
            share,
            fallback_pct.value(),
            100,
        ) && closest::closest(
            percent_in_watts(fallback_pct, wmax_w),
            wmax_w.value() * share.value(),
            pow2(1074) as int,
        ),
        fallback_pct.nan() || wmax_w.nan() ==> percent_in_watts(fallback_pct, wmax_w).nan(),
        fallback_pct.infinite() && wmax_w.finite() && wmax_w.value() != 0 ==> percent_in_watts(
            fallback_pct,
            wmax_w,
        ).infinite() && percent_in_watts(fallback_pct, wmax_w).negative()
            == (fallback_pct.negative() != wmax_w.negative()),
        fallback_pct.infinite() && wmax_w.finite() && wmax_w.value() == 0 ==> percent_in_watts(
            fallback_pct,
            wmax_w,
        ).nan(),
{
    let hundred = arith::integer(100);
    let share = arith::quotient(fallback_pct, hundred);
    let one = pow2(1074) as int;
    lemma_pow2_pos(1074);
    whole::lemma_integer(100);
    assert(hundred.value() > 0) by (nonlinear_arith)
        requires
            hundred.value() == 100 * one,
            one > 0,
    ;
    closest::law_special_results(fallback_pct, hundred);
    closest::law_special_results(share, wmax_w);
    closest::law_special_results(wmax_w, share);
    if fallback_pct.finite() && wmax_w.finite() {
        let p = fallback_pct.value();
        closest::law_quotient_is_closest(fallback_pct, hundred);
        closest::lemma_cancel_both(share, p, 100, one);
        // Infinity is further from a hundredth than the number itself.
        assert(abs(share.value() * 100 - p) <= abs(fallback_pct.value() * 100 - p));
        if share.infinite() {
            closest::law_infinity(share);
            closest::law_finite_is_below_infinity(fallback_pct, share);
        }
        closest::law_product_is_closest(wmax_w, share);
    }
    share
}

/// The replies of a connection where nothing fails but, perhaps, the last two
/// readings.
pub open spec fn smooth_replies(
    cfg: Config,
    wmax_w: Binary64,
    mode: Binary64,
    timeout_s: Binary64,
    fallback_value: Result<Binary64, ModbusIoError>,
    operating_mode: Result<Binary64, ModbusIoError>,
) -> Seq<Reply> {
    Seq::<Reply>::empty().push(Reply::Reading(Ok(wmax_w))) + (if cfg.comm_control_activate
        && !cfg.dry_run {
        seq![Reply::Written(Ok(()))]
    } else {
        Seq::empty()
    }) + seq![
        Reply::Reading(Ok(mode)),
        Reply::Reading(Ok(timeout_s)),
        Reply::Reading(fallback_value),
        Reply::Reading(operating_mode),
    ]
}

proof fn lemma_smooth(
    cfg: Config,
    wmax_w: Binary64,
    mode: Binary64,
    timeout_s: Binary64,
    fallback_value: Result<Binary64, ModbusIoError>,
    operating_mode: Result<Binary64, ModbusIoError>,
)
    ensures
        smooth_replies(cfg, wmax_w, mode, timeout_s, fallback_value, operating_mode)
            == full_dialogue(cfg, wmax_w, mode, timeout_s, fallback_value, operating_mode),
{
    assert(smooth_replies(cfg, wmax_w, mode, timeout_s, fallback_value, operating_mode)
        =~= full_dialogue(cfg, wmax_w, mode, timeout_s, fallback_value, operating_mode));
}

/// Control is armed exactly if the inverter's own readings are safe, or that is
/// not enforced: the fallback mode is 2507, the timeout positive and at most
/// thirty seconds, the operating mode 1079 as far as it can be read, and the
/// fallback value, as far as it can be read, no more than the maximum: the very
/// reading if the register holds watts, its percentage of `WMax` if it holds
/// percent.
pub proof fn law_armed_exactly_if_safe(
    cfg: Config,
    wmax_w: Binary64,
    mode: Binary64,
    timeout_s: Binary64,
    fallback_value: Result<Binary64, ModbusIoError>,
    operating_mode: Result<Binary64, ModbusIoError>,
)
    ensures
        ({
            let replies = smooth_replies(
                cfg,
                wmax_w,
                mode,
                timeout_s,
                fallback_value,
                operating_mode,
            );
            let one = pow2(1074);
            let max = cfg.fallback_max_w;
            let safe = {
                &&& mode.finite() && mode.value() == 2507 * one
                &&& !timeout_s.nan() && 0 < timeout_s.value() <= 30 * one
                &&& operating_mode matches Ok(o) ==> o.finite() && o.value() == 1079 * one
                &&& cfg.fallback_value_encoding is Watts ==> (fallback_value matches Ok(w) ==> {
                    !w.nan() && !max.nan() && -2_147_483_647 * one < w.value() <= max.value()
                })
                &&& cfg.fallback_value_encoding is Percent ==> (fallback_value matches Ok(p) ==> {
                    let w = percent_in_watts(p, wmax_w);
                    !w.nan() && !max.nan() && -2_147_483_647 * one < w.value() <= max.value()
                })
            };
            &&& is_dialogue(cfg, replies)
            &&& armed_with(progress_of(cfg, replies), cfg) == (if safe || !cfg.selfcheck_enforce {
                Some(wmax_w)
            } else {
                None
            })
        }),
{
    lemma_smooth(cfg, wmax_w, mode, timeout_s, fallback_value, operating_mode);
    law_check_completes(cfg, wmax_w, mode, timeout_s, fallback_value, operating_mode);
    law_safe_inverter_is_armed(cfg, wmax_w, mode, timeout_s, fallback_value, operating_mode);
}

/// Nothing but such replies arms control.
pub proof fn law_nothing_else_arms(cfg: Config, replies: Seq<Reply>, wmax_w: Binary64)
    requires
        is_dialogue(cfg, replies),
        armed_with(progress_of(cfg, replies), cfg) == Some(wmax_w),
    ensures
        ({
            let k: int = if cfg.comm_control_activate && !cfg.dry_run {
                2
            } else {
                1
            };
            &&& replies.len() == k + 4
            &&& replies[0] == Reply::Reading(Ok(wmax_w))
            &&& k == 2 ==> replies[1] == Reply::Written(Ok(()))
            &&& replies[k] matches Reply::Reading(Ok(_))
            &&& replies[k + 1] matches Reply::Reading(Ok(_))
            &&& replies[k + 2] is Reading
            &&& replies[k + 3] is Reading
        }),
{
    law_armed_means_checked(cfg, replies, wmax_w);
}

/// The inverter is asked for `WMax`, then, unless the run is dry or the operator
/// does not want it, told to listen to setpoints (802), then asked for the
/// fallback mode, timeout and value and for the operating mode, each in the
/// register that is configured for it.
pub proof fn law_questions(
    cfg: Config,
    wmax_w: Binary64,
    mode: Binary64,
    timeout_s: Binary64,
    fallback_value: Result<Binary64, ModbusIoError>,
    operating_mode: Result<Binary64, ModbusIoError>,
)
    ensures
        ({
            let replies = smooth_replies(
                cfg,
                wmax_w,
                mode,
                timeout_s,
                fallback_value,
                operating_mode,
            );
            let asked = |i: int| requested(progress_of(cfg, replies.take(i))->Ask_0, cfg);
            let k: int = if cfg.comm_control_activate && !cfg.dry_run {
                2
            } else {
                1
            };
            &&& replies.len() == k + 4
            &&& forall|i: int|
                0 <= i < k + 4 ==> (#[trigger] progress_of(cfg, replies.take(i))) is Ask
            &&& asked(0) == Request::Read(cfg.inverter_wmax_reg)
            &&& k == 2 ==> asked(1) == (Request::Write {
                address: cfg.comm_control_activate_addr,
                value: 802,
            })
            &&& asked(k) == Request::Read(cfg.fallback_mode_reg)
            &&& asked(k + 1) == Request::Read(cfg.fallback_timeout_reg)
            &&& asked(k + 2) == Request::Read(cfg.fallback_value_reg)
            &&& asked(k + 3) == Request::Read(cfg.operating_mode_reg)
        }),
{
    let replies = smooth_replies(cfg, wmax_w, mode, timeout_s, fallback_value, operating_mode);
    let k: int = if cfg.comm_control_activate && !cfg.dry_run {
        2
    } else {
        1
    };
    assert(replies.take(0) =~= Seq::<Reply>::empty());
    assert forall|i: int| 0 <= i < k + 4 implies (#[trigger] replies.take(i + 1)) == replies.take(
        i,
    ).push(replies[i]) by {
        assert(replies.take(i + 1) =~= replies.take(i).push(replies[i]));
    }
    assert(replies.take(1) == replies.take(0).push(replies[0]));
    lemma_one_more(cfg, replies.take(0), replies[0]);
    if k == 2 {
        assert(replies.take(2) == replies.take(1).push(replies[1]));
        lemma_one_more(cfg, replies.take(1), replies[1]);
    }
    assert(replies.take(k + 1) == replies.take(k).push(replies[k]));
    assert(replies.take(k + 1 + 1) == replies.take(k + 1).push(replies[k + 1]));
    assert(replies.take(k + 2 + 1) == replies.take(k + 2).push(replies[k + 2]));
    lemma_one_more(cfg, replies.take(k), replies[k]);
    lemma_one_more(cfg, replies.take(k + 1), replies[k + 1]);
    lemma_one_more(cfg, replies.take(k + 2), replies[k + 2]);
    assert forall|i: int| 0 <= i < k + 4 implies (#[trigger] progress_of(cfg, replies.take(i)))
        is Ask by {
        if i == 0 {
        } else if i == 1 {
        } else if i == k {
        } else if i == k + 1 {
        } else if i == k + 2 {
        } else {
            assert(i == k + 3);
        }
    }
}

/// An error ends the connection where it counts, and it is the error that is
/// reported: reading `WMax`, activating, reading the fallback mode or timeout.
pub proof fn law_failures(
    cfg: Config,
    e: ModbusIoError,
    wmax_w: Binary64,
    mode: Binary64,
    timeout_s: Binary64,
)
    ensures
        after_reading(Arming::WMax, cfg, Err(e)) == Progress::Failed(e),
        after_write(wmax_w, Err(e)) == Progress::Failed(e),
        after_reading(Arming::Mode { wmax_w }, cfg, Err(e)) == Progress::Failed(e),
        after_reading(Arming::Timeout { wmax_w, mode }, cfg, Err(e)) == Progress::Failed(e),
        armed_with(Progress::Failed(e), cfg) is None,
        armed_with(Progress::Ask(Arming::FallbackValue { wmax_w, mode, timeout_s }), cfg) is None,
{
}

/// What is reported, in words and in this order: each criterion that is not met
/// gives one issue, which shows the number that was read.
pub proof fn law_issues_in_words(
    mode: Binary64,
    timeout_s: Binary64,
    fallback_value_w: Option<Binary64>,
    operating_mode: Option<Binary64>,
    max: Binary64,
)
    ensures
        ({
            let one = pow2(1074);
            let none = Seq::<Seq<char>>::empty();
            let first = match operating_mode {
                Some(o) => if o.finite() && o.value() == 1079 * one {
                    none
                } else {
                    seq![
                        "operating mode active power setting is "@ + literal::whole_text(o)
                            + ", expected 1079 (\"External active power setpoint\"); the inverter is ignoring this daemon's setpoint writes"@,
                    ]
                },
                None => none,
            };
            let second = if mode.finite() && mode.value() == 2507 * one {
                none
            } else {
                seq![
                    "fallback mode is "@ + literal::whole_text(mode)
                        + ", expected 2507 (\"apply fallback values\"); on comm loss the inverter would hold its last setpoint instead of falling back"@,
                ]
            };
            let third = if !timeout_s.nan() && 0 < timeout_s.value() <= 30 * one {
                none
            } else {
                seq![
                    "fallback timeout is "@ + literal::whole_text(timeout_s)
                        + "s, outside the safe range (0, 30]s"@,
                ]
            };
            let fourth = match fallback_value_w {
                Some(w) => if w.nan() || w.value() <= -2_147_483_647 * one {
                    seq![
                        "fallback value register read back as NaN (never configured); confirm manually in the inverter's UI that it is set at or below FALLBACK_MAX_W"@,
                    ]
                } else if max.nan() || w.value() > max.value() {
                    seq![
                        "fallback value is "@ + literal::whole_text(w)
                            + " W, which exceeds FALLBACK_MAX_W ("@ + literal::whole_text(max)
                            + " W)"@,
                    ]
                } else {
                    none
                },
                None => none,
            };
            issues_of(mode, timeout_s, fallback_value_w, operating_mode, max) == first + second
                + third + fourth
        }),
{
    whole::lemma_integer(0);
    whole::lemma_integer(30);
    whole::lemma_integer(-2_147_483_647);
    assert(0 * model::one() == 0);
    lemma_equal_is_finite(mode, 2507);
    if operating_mode is Some {
        lemma_equal_is_finite(operating_mode->0, 1079);
    }
}

} // verus!
