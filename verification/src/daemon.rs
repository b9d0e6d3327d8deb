//! The control loop: what to do next, given what has happened.
//!
//! Once per telegram the loop reads the inverter's AC power, computes a
//! setpoint and writes it. On any error (stale telegram, read or write failure,
//! out-of-range value) it stops writing: the inverter's comm-loss fallback takes
//! over.

use crate::binary64::arith;
use crate::binary64::closest;
use crate::binary64::whole;
use crate::binary64::Binary64;
use crate::config::{Config, RegisterSpec};
use crate::control;
use crate::control::{ControlInput, ControlOutput};
use crate::dsmr::Telegram;
use crate::e20;
use crate::modbus_client;
use crate::modbus_client::ModbusIoError;
use crate::selfcheck::SelfCheckError;
use crate::state::AppState;
use vstd::arithmetic::power2::*;
use vstd::math::*;
use vstd::prelude::*;

verus! {

/// What the loop is waiting for.
#[derive(Clone, Copy, Debug)]
pub enum Phase {
    /// The next telegram.
    Waiting,
    /// A connection that is armed.
    Connecting { telegram: Telegram },
    /// The inverter's AC power.
    Power { telegram: Telegram },
    /// The limit that the inverter currently enforces, for the log.
    Limit { input: ControlInput, setpoint_w: Binary64 },
    /// The end of a write.
    Writing,
}

/// The state of the loop.
#[derive(Clone, Copy, Debug)]
pub struct LoopState {
    /// Inverter.WMax, while the inverter is connected and armed.
    pub link: Option<Binary64>,
    /// The pause after the next failed attempt to connect, in milliseconds.
    pub backoff_ms: u64,
    /// When to connect again at the earliest, in nanoseconds.
    pub next_attempt: u128,
    /// Whether telegrams have ceased to come.
    pub lapsed: bool,
    pub phase: Phase,
}

/// What has happened.
#[derive(Debug)]
pub enum Event {
    /// No telegram came within the staleness window.
    Stale,
    /// No more telegrams will come.
    Closed,
    Received(Telegram),
    /// The outcome of connecting and arming: Inverter.WMax, or why not.
    Connected(Result<Binary64, SelfCheckError>),
    Power(Result<Binary64, ModbusIoError>),
    /// The limit register has been read or could not be.
    Limit,
    Written(Result<(), ModbusIoError>),
}

/// What to do next.
#[derive(Debug)]
pub enum Action {
    AwaitTelegram,
    Connect,
    ReadPower { register: RegisterSpec },
    ReadLimit { register: RegisterSpec, ac_power_w: Binary64, output: ControlOutput },
    Write { register: RegisterSpec, raw: i32 },
    /// End the loop.
    Stop,
    /// End the program: the self-check refuses to arm, and that needs a fix on
    /// the inverter.
    Refuse(Vec<String>),
}

/// Whether the event is what the loop is waiting for.
pub open spec fn expects(phase: Phase, event: Event) -> bool {
    match phase {
        Phase::Waiting => event is Stale || event is Closed || event is Received,
        Phase::Connecting { .. } => event is Connected,
        Phase::Power { .. } => event is Power,
        Phase::Limit { .. } => event is Limit,
        Phase::Writing => event is Written,
    }
}

impl LoopState {
    /// The inverter is only asked while it is connected and armed, and a cycle
    /// goes on only with a sound setpoint.
    pub open spec fn wf(self) -> bool {
        &&& self.phase is Power || self.phase is Limit || self.phase is Writing
            ==> self.link is Some
        &&& self.phase matches Phase::Limit { input, setpoint_w } ==> control::is_sound(input)
            && setpoint_w == control::setpoint(input) && self.link == Some(input.inverter_wmax_w)
    }

    pub open spec fn in_phase(self, phase: Phase) -> LoopState {
        LoopState {
            link: self.link,
            backoff_ms: self.backoff_ms,
            next_attempt: self.next_attempt,
            lapsed: self.lapsed,
            phase,
        }
    }

    /// After the connection was dropped: the next attempt may come at once.
    pub open spec fn disconnected(self, now: u64) -> LoopState {
        LoopState {
            link: None,
            backoff_ms: self.backoff_ms,
            next_attempt: now as u128,
            lapsed: self.lapsed,
            phase: self.phase,
        }
    }

    /// After a failed attempt to connect.
    pub open spec fn backed_off(self, cfg: Config, now: u64) -> LoopState {
        LoopState {
            link: self.link,
            backoff_ms: e20::backoff_after(
                self.backoff_ms as nat,
                cfg.reconnect_backoff_max as nat,
            ) as u64,
            next_attempt: (now + self.backoff_ms * 1_000_000) as u128,
            lapsed: self.lapsed,
            phase: self.phase,
        }
    }

    pub open spec fn connected(self, cfg: Config, wmax_w: Binary64) -> LoopState {
        LoopState {
            link: Some(wmax_w),
            backoff_ms: cfg.reconnect_backoff_min,
            next_attempt: self.next_attempt,
            lapsed: self.lapsed,
            phase: self.phase,
        }
    }

    pub open spec fn with_lapsed(self, lapsed: bool) -> LoopState {
        LoopState {
            link: self.link,
            backoff_ms: self.backoff_ms,
            next_attempt: self.next_attempt,
            lapsed,
            phase: self.phase,
        }
    }
}

/// The loop before anything has happened.
pub open spec fn initial(cfg: Config, now: u64) -> LoopState {
    LoopState {
        link: None,
        backoff_ms: cfg.reconnect_backoff_min,
        next_attempt: now as u128,
        lapsed: true,
        phase: Phase::Waiting,
    }
}

/// The cycle is over.
pub open spec fn waiting(s: LoopState) -> (LoopState, Action) {
    (s.in_phase(Phase::Waiting), Action::AwaitTelegram)
}

/// The cycle goes on with the AC power.
pub open spec fn reading_power(s: LoopState, cfg: Config, telegram: Telegram) -> (
    LoopState,
    Action,
) {
    (
        s.in_phase(Phase::Power { telegram }),
        Action::ReadPower { register: cfg.ac_power_reg },
    )
}

/// What the setpoint of a cycle is computed from.
pub open spec fn control_input(
    cfg: Config,
    telegram: Telegram,
    ac_power_w: Binary64,
    wmax_w: Binary64,
) -> ControlInput {
    ControlInput {
        import_w: telegram.import_w,
        export_w: telegram.export_w,
        inverter_ac_w: ac_power_w,
        export_limit_w: cfg.export_limit_w,
        inverter_wmax_w: wmax_w,
    }
}

/// The AC power that a reading stands for. The sentinel, which is read while
/// the panels are not producing (e.g. at night), is 0 W if the cycle is to go
/// on. `None` ends the cycle.
pub open spec fn usable_power(cfg: Config, reading: Result<Binary64, ModbusIoError>) -> Option<
    Binary64,
> {
    match reading {
        Ok(w) => Some(w),
        Err(e) => if e is NotImplemented && cfg.write_when_not_producing {
            Some(arith::integer(0))
        } else {
            None
        },
    }
}

/// Whether the setpoint register can hold a setpoint.
pub open spec fn writable(cfg: Config, wmax_w: Binary64, setpoint_w: Binary64) -> bool {
    control::fits(
        control::register_value(
            cfg.setpoint_encoding,
            setpoint_w,
            wmax_w,
            cfg.setpoint_reg.scale,
        ),
        cfg.setpoint_reg.reg_type,
    )
}

/// Whether the event makes the loop drop the connection.
pub open spec fn drops(event: Event) -> bool {
    match event {
        Event::Power(Err(e)) => !(e is NotImplemented),
        Event::Written(Err(_)) => true,
        _ => false,
    }
}

/// What an event leads to.
pub open spec fn transition(s: LoopState, cfg: Config, now: u64, event: Event) -> (
    LoopState,
    Action,
) {
    match event {
        Event::Stale => waiting(s.with_lapsed(true)),
        Event::Closed => (s, Action::Stop),
        Event::Received(telegram) => {
            let s = s.with_lapsed(false);
            if s.link is Some {
                reading_power(s, cfg, telegram)
            } else if now >= s.next_attempt {
                (s.in_phase(Phase::Connecting { telegram }), Action::Connect)
            } else {
                waiting(s)
            }
        },
        Event::Connected(Ok(wmax_w)) => reading_power(
            s.connected(cfg, wmax_w),
            cfg,
            s.phase->Connecting_telegram,
        ),
        Event::Connected(Err(SelfCheckError::FailedChecks(issues))) => (
            s.in_phase(Phase::Waiting),
            Action::Refuse(issues),
        ),
        Event::Connected(Err(SelfCheckError::Modbus(_))) => waiting(s.backed_off(cfg, now)),
        Event::Power(reading) => match usable_power(cfg, reading) {
            Some(ac_power_w) => {
                let input = control_input(cfg, s.phase->Power_telegram, ac_power_w, s.link->0);
                let setpoint_w = control::setpoint(input);
                if control::is_sound(input) {
                    (
                        s.in_phase(Phase::Limit { input, setpoint_w }),
                        Action::ReadLimit {
                            register: cfg.current_limit_reg,
                            ac_power_w,
                            output: ControlOutput {
                                house_load_w: control::house_load(input),
                                setpoint_w,
                            },
                        },
                    )
                } else {
                    waiting(s)
                }
            },
            None => waiting(
                if drops(event) {
                    s.disconnected(now)
                } else {
                    s
                },
            ),
        },
        Event::Limit => if cfg.dry_run || !writable(cfg, s.link->0, s.phase->Limit_setpoint_w) {
            waiting(s)
        } else {
            (
                s.in_phase(Phase::Writing),
                Action::Write {
                    register: cfg.setpoint_reg,
                    raw: control::raw_value(
                        cfg.setpoint_encoding,
                        s.phase->Limit_setpoint_w,
                        s.link->0,
                        cfg.setpoint_reg.scale,
                    ),
                },
            )
        },
        Event::Written(Ok(_)) => waiting(s),
        Event::Written(Err(_)) => waiting(s.disconnected(now)),
    }
}

/// The AC power that a reading stands for, if the cycle is to go on.
pub fn power_taken(cfg: &Config, reading: &Result<Binary64, ModbusIoError>) -> (r: Option<Binary64>)
    ensures
        r == usable_power(*cfg, *reading),
{
    match reading {
        Ok(w) => Some(*w),
        Err(ModbusIoError::NotImplemented { .. }) => if cfg.write_when_not_producing {
            Some(Binary64::from_i64(0))
        } else {
            None
        },
        Err(_) => None,
    }
}

/// The control loop.
pub struct ControlLoop {
    state: LoopState,
}

impl View for ControlLoop {
    type V = LoopState;

    closed spec fn view(&self) -> LoopState {
        self.state
    }
}

impl LoopState {
    /// The cycle is over.
    fn wait(self) -> (r: (LoopState, Action))
        ensures
            r == waiting(self),
    {
        let mut s: LoopState = self;
        s.phase = Phase::Waiting;
        (s, Action::AwaitTelegram)
    }

    /// Drops the connection and ends the cycle.
    fn drop_link(self, now: u64) -> (r: (LoopState, Action))
        ensures
            r == waiting(self.disconnected(now)),
    {
        let mut s: LoopState = self;
        s.link = None;
        s.next_attempt = now as u128;
        s.wait()
    }

    /// The cycle goes on with the AC power.
    fn read_power(self, cfg: &Config, telegram: Telegram) -> (r: (LoopState, Action))
        ensures
            r == reading_power(self, *cfg, telegram),
    {
        let mut s: LoopState = self;
        s.phase = Phase::Power { telegram };
        (s, Action::ReadPower { register: cfg.ac_power_reg })
    }

    fn on_telegram(self, cfg: &Config, now: u64, telegram: Telegram) -> (r: (LoopState, Action))
        ensures
            r == transition(self, *cfg, now, Event::Received(telegram)),
    {
        let mut s: LoopState = self;
        s.lapsed = false;
        if s.link.is_some() {
            s.read_power(cfg, telegram)
        } else if now as u128 >= s.next_attempt {
            s.phase = Phase::Connecting { telegram };
            (s, Action::Connect)
        } else {
            s.wait()
        }
    }

    fn on_connected(
        self,
        cfg: &Config,
        now: u64,
        telegram: Telegram,
        outcome: Result<Binary64, SelfCheckError>,
    ) -> (r: (LoopState, Action))
        requires
            self.phase == (Phase::Connecting { telegram }),
        ensures
            r == transition(self, *cfg, now, Event::Connected(outcome)),
    {
        let mut s: LoopState = self;
        match outcome {
            Ok(wmax_w) => {
                s.link = Some(wmax_w);
                s.backoff_ms = cfg.reconnect_backoff_min;
                s.read_power(cfg, telegram)
            },
            Err(SelfCheckError::FailedChecks(issues)) => {
                s.phase = Phase::Waiting;
                (s, Action::Refuse(issues))
            },
            Err(SelfCheckError::Modbus(_)) => {
                s.next_attempt = now as u128 + s.backoff_ms as u128 * 1_000_000;
                s.backoff_ms = e20::next_backoff(s.backoff_ms, cfg.reconnect_backoff_max);
                s.wait()
            },
        }
    }

    fn on_power(
        self,
        cfg: &Config,
        now: u64,
        telegram: Telegram,
        wmax_w: Binary64,
        reading: Result<Binary64, ModbusIoError>,
    ) -> (r: (LoopState, Action))
        requires
            self.phase == (Phase::Power { telegram }),
            self.link == Some(wmax_w),
            usable_power(*cfg, reading) is Some ==> control::usable_wmax(wmax_w),
        ensures
            r == transition(self, *cfg, now, Event::Power(reading)),
    {
        let ac_power_w: Binary64 = match power_taken(cfg, &reading) {
            Some(w) => w,
            None => return match reading {
                Err(ModbusIoError::NotImplemented { .. }) => self.wait(),
                _ => self.drop_link(now),
            },
        };
        let input: ControlInput = ControlInput {
            import_w: telegram.import_w,
            export_w: telegram.export_w,
            inverter_ac_w: ac_power_w,
            export_limit_w: cfg.export_limit_w,
            inverter_wmax_w: wmax_w,
        };
        let output: ControlOutput = control::compute(input);
        let setpoint_w: Binary64 = output.setpoint_w;
        if !control::has_finite_readings(&input) || !setpoint_w.is_finite() {
            return self.wait();
        }
        let mut s: LoopState = self;
        s.phase = Phase::Limit { input, setpoint_w };
        (s, Action::ReadLimit { register: cfg.current_limit_reg, ac_power_w, output })
    }

    fn on_limit(self, cfg: &Config, now: u64, setpoint_w: Binary64, wmax_w: Binary64) -> (r: (
        LoopState,
        Action,
    ))
        requires
            self.phase is Limit,
            self.phase->Limit_setpoint_w == setpoint_w,
            self.link == Some(wmax_w),
        ensures
            r == transition(self, *cfg, now, Event::Limit),
    {
        if cfg.dry_run {
            return self.wait();
        }
        match control::raw_for_register(
            cfg.setpoint_encoding,
            setpoint_w,
            wmax_w,
            &cfg.setpoint_reg,
        ) {
            Some(raw) => {
                let mut s: LoopState = self;
                s.phase = Phase::Writing;
                (s, Action::Write { register: cfg.setpoint_reg, raw })
            },
            None => self.wait(),
        }
    }

    /// What an event leads to.
    fn next(self, cfg: &Config, now: u64, event: Event) -> (r: (LoopState, Action))
        requires
            self.wf(),
            expects(self.phase, event),
            event matches Event::Power(reading) && usable_power(*cfg, reading) is Some
                ==> control::usable_wmax(self.link->0),
        ensures
            r == transition(self, *cfg, now, event),
            r.0.wf(),
    {
        match (self.phase, self.link, event) {
            (_, _, Event::Stale) => {
                let mut s: LoopState = self;
                s.lapsed = true;
                s.wait()
            },
            (_, _, Event::Received(telegram)) => self.on_telegram(cfg, now, telegram),
            (Phase::Connecting { telegram }, _, Event::Connected(outcome)) => {
                self.on_connected(cfg, now, telegram, outcome)
            },
            (Phase::Power { telegram }, Some(wmax_w), Event::Power(reading)) => {
                self.on_power(cfg, now, telegram, wmax_w, reading)
            },
            (Phase::Limit { setpoint_w, .. }, Some(wmax_w), Event::Limit) => {
                self.on_limit(cfg, now, setpoint_w, wmax_w)
            },
            (_, _, Event::Written(Ok(_))) => self.wait(),
            (_, _, Event::Written(Err(_))) => self.drop_link(now),
            _ => (self, Action::Stop),
        }
    }
}

impl ControlLoop {
    #[verifier::type_invariant]
    spec fn is_well_formed(self) -> bool {
        self.state.wf()
    }

    pub fn new(cfg: &Config, now: u64) -> (r: ControlLoop)
        ensures
            r@ == initial(*cfg, now),
    {
        ControlLoop {
            state: LoopState {
                link: None,
                backoff_ms: cfg.reconnect_backoff_min,
                next_attempt: now as u128,
                lapsed: true,
                phase: Phase::Waiting,
            },
        }
    }

    /// Inverter.WMax, while the inverter is connected and armed.
    pub fn link(&self) -> (r: Option<Binary64>)
        ensures
            r == self@.link,
    {
        self.state.link
    }

    /// Whether telegrams have ceased to come.
    pub fn lapsed(&self) -> (r: bool)
        ensures
            r == self@.lapsed,
    {
        self.state.lapsed
    }

    /// The pause after the next failed attempt to connect, in milliseconds.
    pub fn backoff_ms(&self) -> (r: u64)
        ensures
            r == self@.backoff_ms,
    {
        self.state.backoff_ms
    }

    /// Takes an event, records it for the health endpoint and says what to do
    /// next. `now` is in nanoseconds on a monotonic clock.
    pub fn step(&mut self, cfg: &Config, health: &mut AppState, now: u64, event: Event) -> (r:
        Action)
        requires
            expects(old(self)@.phase, event),
            event matches Event::Power(reading) && usable_power(*cfg, reading) is Some
                ==> control::usable_wmax(old(self)@.link->0),
        ensures
            (final(self)@, r) == transition(old(self)@, *cfg, now, event),
            final(self)@.wf(),
            final(health).telegram_at() == (if event is Received {
                Some(now)
            } else {
                old(health).telegram_at()
            }),
            final(health).action_at() == (if r is AwaitTelegram {
                Some(now)
            } else {
                old(health).action_at()
            }),
            final(health).window() == old(health).window(),
    {
        proof {
            use_type_invariant(&*self);
        }
        if let Event::Received(_) = event {
            health.record_telegram(now);
        }
        let (state, action) = self.state.next(cfg, now, event);
        self.state = state;
        if let Action::AwaitTelegram = action {
            health.record_action(now);
        }
        action
    }
}

/// Events with the times at which they happen.
pub type Trace = Seq<(u64, Event)>;

/// Where a loop that started at `start` has come to, and what it does next.
pub open spec fn reached(cfg: Config, start: u64, trace: Trace) -> (LoopState, Action)
    decreases trace.len(),
{
    if trace.len() == 0 {
        (initial(cfg, start), Action::AwaitTelegram)
    } else {
        let before = reached(cfg, start, trace.drop_last()).0;
        transition(before, cfg, trace.last().0, trace.last().1)
    }
}

/// Whether each event is one that the loop was waiting for.
pub open spec fn is_trace(cfg: Config, start: u64, trace: Trace) -> bool
    decreases trace.len(),
{
    trace.len() == 0 || {
        let (before, action) = reached(cfg, start, trace.drop_last());
        &&& is_trace(cfg, start, trace.drop_last())
        &&& expects(before.phase, trace.last().1)
        &&& !(action is Stop || action is Refuse)
    }
}

/// Whether the trace ends with `telegram`, or with that and the connection that
/// it led to.
pub open spec fn ends_with_telegram(trace: Trace, telegram: Telegram) -> bool {
    let n = trace.len() as int;
    ||| n >= 1 && trace[n - 1].1 == Event::Received(telegram)
    ||| {
        &&& n >= 2
        &&& trace[n - 1].1 matches Event::Connected(Ok(_))
        &&& trace[n - 2].1 == Event::Received(telegram)
    }
}

/// Whether the trace ends with a telegram and a reading of the AC power that
/// give this input.
pub open spec fn ends_with_input(
    cfg: Config,
    wmax_w: Binary64,
    trace: Trace,
    input: ControlInput,
) -> bool {
    let n = trace.len() as int;
    &&& n >= 1
    &&& trace[n - 1].1 matches Event::Power(reading) && usable_power(cfg, reading) is Some
        && exists|telegram: Telegram|
        {
            &&& #[trigger] ends_with_telegram(trace.drop_last(), telegram)
            &&& input == control_input(cfg, telegram, usable_power(cfg, reading)->0, wmax_w)
        }
}

/// Whether the inverter was armed with this `WMax` and no error came since.
pub open spec fn armed_since(trace: Trace, wmax_w: Binary64) -> bool {
    exists|i: int|
        {
            &&& 0 <= i < trace.len()
            &&& (#[trigger] trace[i]).1 == Event::Connected(Ok(wmax_w))
            &&& forall|j: int| i < j < trace.len() ==> !drops((#[trigger] trace[j]).1)
        }
}

/// How the state follows from the trace.
pub open spec fn follows(cfg: Config, trace: Trace, s: LoopState) -> bool {
    &&& s.link matches Some(wmax_w) ==> armed_since(trace, wmax_w)
    &&& match s.phase {
        Phase::Waiting => true,
        Phase::Connecting { telegram } => trace.len() > 0 && trace.last().1 == Event::Received(
            telegram,
        ),
        Phase::Power { telegram } => s.link is Some && ends_with_telegram(trace, telegram),
        Phase::Limit { input, .. } => s.link is Some && ends_with_input(
            cfg,
            s.link->0,
            trace,
            input,
        ),
        Phase::Writing => s.link is Some,
    }
}

/// What is armed stays so unless the last event was an error.
proof fn lemma_still_armed(trace: Trace, wmax_w: Binary64)
    requires
        trace.len() > 0,
        armed_since(trace.drop_last(), wmax_w),
        !drops(trace.last().1),
    ensures
        armed_since(trace, wmax_w),
{
    let before = trace.drop_last();
    let i = choose|i: int|
        {
            &&& 0 <= i < before.len()
            &&& (#[trigger] before[i]).1 == Event::Connected(Ok(wmax_w))
            &&& forall|j: int| i < j < before.len() ==> !drops((#[trigger] before[j]).1)
        };
    assert(trace[i] == before[i]);
    assert forall|j: int| i < j < trace.len() implies !drops((#[trigger] trace[j]).1) by {
        if j < before.len() {
            assert(before[j] == trace[j]);
        }
    }
}

/// The state is what the trace has led to: the inverter counts as armed only if
/// it was armed and no read or write failed since, and what is under way comes
/// from the last telegram.
pub proof fn law_state_follows_events(cfg: Config, start: u64, trace: Trace)
    requires
        is_trace(cfg, start, trace),
    ensures
        follows(cfg, trace, reached(cfg, start, trace).0),
        reached(cfg, start, trace).0.wf(),
    decreases trace.len(),
{
    if trace.len() > 0 {
        let before = trace.drop_last();
        law_state_follows_events(cfg, start, before);
        let s = reached(cfg, start, before).0;
        let (next, action) = reached(cfg, start, trace);
        let event = trace.last().1;
        let n = trace.len() as int;
        assert(trace[n - 1] == trace.last());
        if before.len() > 0 {
            assert(trace[n - 2] == before.last());
        }
        if let Some(wmax_w) = next.link {
            if event matches Event::Connected(Ok(_)) {
                assert(trace[n - 1].1 == Event::Connected(Ok(wmax_w)));
                assert(armed_since(trace, wmax_w));
            } else {
                lemma_still_armed(trace, wmax_w);
            }
        }
        if let Event::Power(reading) = event {
            if usable_power(cfg, reading) is Some {
                assert(ends_with_telegram(before, s.phase->Power_telegram));
            }
        }
    }
}

/// Every write is of the setpoint register, and of a setpoint that was computed
/// from the last telegram and an AC power read after it, on an inverter that was
/// armed and has shown no error since. The setpoint and the readings that it was
/// computed from are finite, and the register can hold it.
pub proof fn law_writes_are_fresh(cfg: Config, start: u64, trace: Trace)
    requires
        is_trace(cfg, start, trace),
        reached(cfg, start, trace).1 is Write,
    ensures
        !cfg.dry_run,
        trace.last().1 is Limit,
        reached(cfg, start, trace).0.link is Some,
        ({
            let wmax_w = reached(cfg, start, trace).0.link->0;
            &&& armed_since(trace, wmax_w)
            &&& exists|input: ControlInput|
                {
                    &&& #[trigger] ends_with_input(cfg, wmax_w, trace.drop_last(), input)
                    &&& control::finite_readings(input)
                    &&& control::setpoint(input).finite()
                    &&& writable(cfg, wmax_w, control::setpoint(input))
                    &&& reached(cfg, start, trace).1 == (Action::Write {
                        register: cfg.setpoint_reg,
                        raw: control::raw_value(
                            cfg.setpoint_encoding,
                            control::setpoint(input),
                            wmax_w,
                            cfg.setpoint_reg.scale,
                        ),
                    })
                }
        }),
{
    law_state_follows_events(cfg, start, trace);
    law_state_follows_events(cfg, start, trace.drop_last());
    let s = reached(cfg, start, trace.drop_last()).0;
    assert(ends_with_input(cfg, s.link->0, trace.drop_last(), s.phase->Limit_input));
}

/// A write is of a finite setpoint that was computed from finite readings, and of
/// a raw value that the register holds as it is.
pub proof fn law_written_values_are_in_range(s: LoopState, cfg: Config, now: u64, event: Event)
    requires
        s.wf(),
        expects(s.phase, event),
        transition(s, cfg, now, event).1 is Write,
    ensures
        s.phase is Limit,
        control::finite_readings(s.phase->Limit_input),
        s.phase->Limit_setpoint_w == control::setpoint(s.phase->Limit_input),
        s.phase->Limit_setpoint_w.finite(),
        modbus_client::in_range(
            transition(s, cfg, now, event).1->Write_raw as int,
            cfg.setpoint_reg.reg_type,
        ),
        modbus_client::decoded(
            modbus_client::encoded(
                transition(s, cfg, now, event).1->Write_raw as int,
                cfg.setpoint_reg.reg_type,
            ),
            cfg.setpoint_reg.reg_type,
        ) == transition(s, cfg, now, event).1->Write_raw,
{
    control::law_fitting_value_reads_back(
        control::register_value(
            cfg.setpoint_encoding,
            s.phase->Limit_setpoint_w,
            s.link->0,
            cfg.setpoint_reg.scale,
        ),
        cfg.setpoint_reg.reg_type,
    );
}

/// An out-of-range value ends the cycle: with a telegram or an AC power that is
/// not finite nothing is written. The connection stays.
pub proof fn law_out_of_range_readings_end_the_cycle(
    s: LoopState,
    cfg: Config,
    now: u64,
    ac_power_w: Binary64,
)
    requires
        s.wf(),
        s.phase is Power,
        !(s.phase->Power_telegram.import_w.finite() && s.phase->Power_telegram.export_w.finite()
            && ac_power_w.finite()),
    ensures
        transition(s, cfg, now, Event::Power(Ok(ac_power_w))) == waiting(s),
{
}

/// On an armed inverter a telegram and a reading of the AC power lead to a write
/// of the setpoint, whatever the limit register says, as long as the readings and
/// the setpoint are finite and the setpoint register can hold the result.
pub proof fn law_cycle_writes_setpoint(
    s: LoopState,
    cfg: Config,
    times: (u64, u64, u64),
    telegram: Telegram,
    ac_power_w: Binary64,
)
    requires
        s.phase is Waiting,
        s.link is Some,
        !cfg.dry_run,
        ({
            let input = control_input(cfg, telegram, ac_power_w, s.link->0);
            control::is_sound(input) && writable(cfg, s.link->0, control::setpoint(input))
        }),
    ensures
        ({
            let second = transition(s, cfg, times.0, Event::Received(telegram)).0;
            let third = transition(second, cfg, times.1, Event::Power(Ok(ac_power_w))).0;
            let input = control_input(cfg, telegram, ac_power_w, s.link->0);
            transition(third, cfg, times.2, Event::Limit).1 == Action::Write {
                register: cfg.setpoint_reg,
                raw: control::raw_value(
                    cfg.setpoint_encoding,
                    control::setpoint(input),
                    s.link->0,
                    cfg.setpoint_reg.scale,
                ),
            }
        }),
{
}

/// A dry run never writes.
pub proof fn law_dry_run_never_writes(cfg: Config, start: u64, trace: Trace)
    requires
        cfg.dry_run,
    ensures
        !(reached(cfg, start, trace).1 is Write),
{
}

pub open spec fn telegrams(trace: Trace) -> nat
    decreases trace.len(),
{
    if trace.len() == 0 {
        0
    } else {
        telegrams(trace.drop_last()) + if trace.last().1 is Received {
            1nat
        } else {
            0nat
        }
    }
}

pub open spec fn writes(cfg: Config, start: u64, trace: Trace) -> nat
    decreases trace.len(),
{
    if trace.len() == 0 {
        0
    } else {
        writes(cfg, start, trace.drop_last()) + if reached(cfg, start, trace).1 is Write {
            1nat
        } else {
            0nat
        }
    }
}

/// There is at most one write per telegram: no setpoint is sent a second time.
pub proof fn law_one_write_per_telegram(cfg: Config, start: u64, trace: Trace)
    requires
        is_trace(cfg, start, trace),
    ensures
        writes(cfg, start, trace) <= telegrams(trace),
        reached(cfg, start, trace).0.phase is Connecting || reached(cfg, start, trace).0.phase
            is Power || reached(cfg, start, trace).0.phase is Limit ==> writes(cfg, start, trace)
            < telegrams(trace),
    decreases trace.len(),
{
    if trace.len() > 0 {
        law_one_write_per_telegram(cfg, start, trace.drop_last());
    }
}

/// An error drops the connection, and the loop asks nothing of the inverter
/// until it has connected again.
pub proof fn law_errors_drop_the_connection(s: LoopState, cfg: Config, now: u64, event: Event)
    requires
        s.wf(),
        expects(s.phase, event),
        drops(event),
    ensures
        transition(s, cfg, now, event).0.link is None,
        transition(s, cfg, now, event).1 is AwaitTelegram,
{
}

/// Only a connection that is armed makes the loop ask anything of the inverter.
pub proof fn law_only_arming_connects(s: LoopState, cfg: Config, now: u64, event: Event)
    requires
        s.wf(),
        expects(s.phase, event),
        s.link is None,
    ensures
        transition(s, cfg, now, event).0.link is Some ==> event == Event::Connected(
            Ok(transition(s, cfg, now, event).0.link->0),
        ),
        transition(s, cfg, now, event).1 is ReadPower ==> event matches Event::Connected(Ok(_)),
        !(transition(s, cfg, now, event).1 is ReadLimit),
        !(transition(s, cfg, now, event).1 is Write),
{
}

/// Failed checks end the program.
pub proof fn law_failed_checks_refuse(s: LoopState, cfg: Config, now: u64, issues: Vec<String>)
    ensures
        transition(s, cfg, now, Event::Connected(Err(SelfCheckError::FailedChecks(issues)))).1
            == Action::Refuse(issues),
{
}

/// The program ends for failed checks only, and the loop when no more telegrams
/// will come.
pub proof fn law_loop_goes_on(s: LoopState, cfg: Config, now: u64, event: Event)
    ensures
        transition(s, cfg, now, event).1 is Stop <==> event is Closed,
        transition(s, cfg, now, event).1 is Refuse <==> event matches Event::Connected(
            Err(SelfCheckError::FailedChecks(_)),
        ),
{
}

/// After a failed attempt the loop does not connect again before the pause is
/// over, and the pause doubles up to its maximum.
pub proof fn law_attempts_are_paced(
    s: LoopState,
    cfg: Config,
    failed: u64,
    e: ModbusIoError,
    later: u64,
    telegram: Telegram,
)
    requires
        s.wf(),
        s.phase is Connecting,
        s.link is None,
    ensures
        ({
            let t = transition(s, cfg, failed, Event::Connected(Err(SelfCheckError::Modbus(e)))).0;
            &&& t.backoff_ms == e20::backoff_after(
                s.backoff_ms as nat,
                cfg.reconnect_backoff_max as nat,
            )
            &&& transition(t, cfg, later, Event::Received(telegram)).1 is Connect <==> later
                >= failed + s.backoff_ms * 1_000_000
        }),
{
}

/// While the inverter is not producing, a cycle writes nothing, unless it is
/// told to; the connection stays.
pub proof fn law_not_producing(s: LoopState, cfg: Config, now: u64, address: u16, raw: i64)
    requires
        s.wf(),
        s.phase is Power,
    ensures
        ({
            let reading = Err(ModbusIoError::NotImplemented { address, raw });
            let (next, action) = transition(s, cfg, now, Event::Power(reading));
            &&& next.link == s.link
            &&& !cfg.write_when_not_producing ==> action is AwaitTelegram
            &&& cfg.write_when_not_producing ==> transition(
                s,
                cfg,
                now,
                Event::Power(reading),
            ) == transition(s, cfg, now, Event::Power(Ok(arith::integer(0))))
        }),
{
}

/// When telegrams cease, the loop does nothing but wait for the next one.
pub proof fn law_stale_lapses(s: LoopState, cfg: Config, now: u64)
    ensures
        transition(s, cfg, now, Event::Stale).1 is AwaitTelegram,
        transition(s, cfg, now, Event::Stale).0.lapsed,
{
}

/// How a loop starts: not connected, free to connect at once, with the shortest
/// pause ahead, and waiting for the first telegram.
pub proof fn law_start(cfg: Config, now: u64)
    ensures
        initial(cfg, now).link is None,
        initial(cfg, now).next_attempt == now,
        initial(cfg, now).backoff_ms == cfg.reconnect_backoff_min,
        initial(cfg, now).lapsed,
        initial(cfg, now).phase is Waiting,
{
}

/// A telegram starts a cycle on an armed inverter with a reading of the AC power.
/// Without a connection it leads to an attempt to connect, if the pause is over,
/// and to nothing otherwise.
pub proof fn law_telegram_starts_a_cycle(s: LoopState, cfg: Config, now: u64, telegram: Telegram)
    ensures
        ({
            let (t, action) = transition(s, cfg, now, Event::Received(telegram));
            &&& t.link == s.link && t.backoff_ms == s.backoff_ms && t.next_attempt
                == s.next_attempt && !t.lapsed
            &&& s.link is Some ==> action == (Action::ReadPower { register: cfg.ac_power_reg })
                && t.phase == (Phase::Power { telegram })
            &&& s.link is None && now >= s.next_attempt ==> action is Connect && t.phase
                == (Phase::Connecting { telegram })
            &&& s.link is None && now < s.next_attempt ==> action is AwaitTelegram && t.phase
                is Waiting
        }),
{
}

/// A connection that is armed resets the pause and goes on with the telegram
/// that led to it. One that failed is tried again after the pause, which doubles
/// up to its maximum. Failed checks end the program with what was found.
pub proof fn law_connection_outcomes(
    s: LoopState,
    cfg: Config,
    now: u64,
    telegram: Telegram,
    wmax_w: Binary64,
    e: ModbusIoError,
    issues: Vec<String>,
)
    requires
        s.phase == (Phase::Connecting { telegram }),
    ensures
        ({
            let (t, action) = transition(s, cfg, now, Event::Connected(Ok(wmax_w)));
            &&& t.link == Some(wmax_w) && t.backoff_ms == cfg.reconnect_backoff_min && t.phase
                == (Phase::Power { telegram }) && t.next_attempt == s.next_attempt && t.lapsed
                == s.lapsed
            &&& action == (Action::ReadPower { register: cfg.ac_power_reg })
        }),
        ({
            let (t, action) = transition(
                s,
                cfg,
                now,
                Event::Connected(Err(SelfCheckError::Modbus(e))),
            );
            &&& t.link == s.link && t.next_attempt == now + 1_000_000 * s.backoff_ms && t.phase
                is Waiting && action is AwaitTelegram && t.lapsed == s.lapsed
            &&& t.backoff_ms == vstd::math::min(
                2 * s.backoff_ms as int,
                cfg.reconnect_backoff_max as int,
            )
        }),
        ({
            let (t, action) = transition(
                s,
                cfg,
                now,
                Event::Connected(Err(SelfCheckError::FailedChecks(issues))),
            );
            &&& action == Action::Refuse(issues)
            &&& t.link == s.link && t.backoff_ms == s.backoff_ms && t.next_attempt
                == s.next_attempt && t.lapsed == s.lapsed && t.phase is Waiting
        }),
{
}

/// A reading of the AC power goes on to a setpoint exactly if the telegram, the
/// AC power and the setpoint are finite. The setpoint is computed from the
/// import and export of the telegram, the AC power, the export limit and the
/// `WMax` of the connection.
pub proof fn law_power_gives_a_setpoint(
    s: LoopState,
    cfg: Config,
    now: u64,
    telegram: Telegram,
    wmax_w: Binary64,
    ac_power_w: Binary64,
)
    requires
        s.phase == (Phase::Power { telegram }),
        s.link == Some(wmax_w),
    ensures
        ({
            let input = ControlInput {
                import_w: telegram.import_w,
                export_w: telegram.export_w,
                inverter_ac_w: ac_power_w,
                export_limit_w: cfg.export_limit_w,
                inverter_wmax_w: wmax_w,
            };
            let set = control::setpoint(input);
            let (t, action) = transition(s, cfg, now, Event::Power(Ok(ac_power_w)));
            let goes_on = telegram.import_w.finite() && telegram.export_w.finite()
                && ac_power_w.finite() && set.finite();
            &&& t.link == s.link && t.backoff_ms == s.backoff_ms && t.next_attempt
                == s.next_attempt && t.lapsed == s.lapsed
            &&& goes_on ==> t.phase == (Phase::Limit { input, setpoint_w: set }) && action == (
            Action::ReadLimit {
                register: cfg.current_limit_reg,
                ac_power_w,
                output: ControlOutput {
                    house_load_w: control::house_load(input),
                    setpoint_w: set,
                },
            })
            &&& !goes_on ==> t.phase is Waiting && action is AwaitTelegram
        }),
{
}

/// While the inverter is not producing, the cycle ends, or goes on with an AC
/// power of zero if that is configured. Any other error of the reading drops the
/// connection, which may be made again at once.
pub proof fn law_power_errors(
    s: LoopState,
    cfg: Config,
    now: u64,
    zero: Binary64,
    address: u16,
    raw: i64,
    e: ModbusIoError,
)
    requires
        s.phase is Power,
        zero.bits == 0,
        !(e is NotImplemented),
    ensures
        ({
            let sentinel = Event::Power(Err(ModbusIoError::NotImplemented { address, raw }));
            &&& cfg.write_when_not_producing ==> transition(s, cfg, now, sentinel) == transition(
                s,
                cfg,
                now,
                Event::Power(Ok(zero)),
            )
            &&& !cfg.write_when_not_producing ==> ({
                let (t, action) = transition(s, cfg, now, sentinel);
                t.link == s.link && t.phase is Waiting && action is AwaitTelegram && t.backoff_ms
                    == s.backoff_ms && t.next_attempt == s.next_attempt && t.lapsed == s.lapsed
            })
        }),
        ({
            let (t, action) = transition(s, cfg, now, Event::Power(Err(e)));
            t.link is None && t.next_attempt == now && t.phase is Waiting && action
                is AwaitTelegram && t.backoff_ms == s.backoff_ms && t.lapsed == s.lapsed
        }),
{
    control::lemma_integer_zero();
    assert(zero == arith::integer(0));
}

/// Once the limit has been read, the setpoint is written, unless the run is dry
/// or the register cannot hold it.
pub proof fn law_limit_leads_to_write(
    s: LoopState,
    cfg: Config,
    now: u64,
    input: ControlInput,
    setpoint_w: Binary64,
    wmax_w: Binary64,
)
    requires
        s.phase == (Phase::Limit { input, setpoint_w }),
        s.link == Some(wmax_w),
    ensures
        ({
            let register = cfg.setpoint_reg;
            let value = control::register_value(
                cfg.setpoint_encoding,
                setpoint_w,
                wmax_w,
                register.scale,
            );
            let writes = !cfg.dry_run && control::fits(value, register.reg_type);
            let (t, action) = transition(s, cfg, now, Event::Limit);
            &&& t.link == s.link && t.backoff_ms == s.backoff_ms && t.next_attempt
                == s.next_attempt && t.lapsed == s.lapsed
            &&& writes ==> t.phase is Writing && action == (Action::Write {
                register,
                raw: control::raw_value(
                    cfg.setpoint_encoding,
                    setpoint_w,
                    wmax_w,
                    register.scale,
                ),
            })
            &&& !writes ==> t.phase is Waiting && action is AwaitTelegram
        }),
{
}

/// A write that went well ends the cycle; one that failed drops the connection,
/// which may be made again at once.
pub proof fn law_write_outcomes(s: LoopState, cfg: Config, now: u64, e: ModbusIoError)
    ensures
        ({
            let (t, action) = transition(s, cfg, now, Event::Written(Ok(())));
            t.link == s.link && t.phase is Waiting && action is AwaitTelegram && t.backoff_ms
                == s.backoff_ms && t.next_attempt == s.next_attempt && t.lapsed == s.lapsed
        }),
        ({
            let (t, action) = transition(s, cfg, now, Event::Written(Err(e)));
            t.link is None && t.next_attempt == now && t.phase is Waiting && action
                is AwaitTelegram && t.backoff_ms == s.backoff_ms && t.lapsed == s.lapsed
        }),
{
}

/// When telegrams cease, nothing changes but that the loop has lapsed; when no
/// more will come, it ends.
pub proof fn law_no_telegram(s: LoopState, cfg: Config, now: u64)
    ensures
        ({
            let (t, action) = transition(s, cfg, now, Event::Stale);
            t.link == s.link && t.lapsed && t.phase is Waiting && action is AwaitTelegram
                && t.backoff_ms == s.backoff_ms && t.next_attempt == s.next_attempt
        }),
        transition(s, cfg, now, Event::Closed) == (s, Action::Stop),
{
}

/// In whole watts, with a setpoint register in steps of one watt, the value that
/// is written is house load plus the export limit, cut to the range from zero to
/// `WMax`: the cycle of a telegram leads from the meter's reading to the
/// register without loss.
pub proof fn law_whole_watts_are_written(
    s: LoopState,
    cfg: Config,
    times: (u64, u64, u64),
    telegram: Telegram,
    ac_power_w: Binary64,
    import: int,
    export: int,
    ac: int,
    limit: int,
    wmax: int,
)
    requires
        s.phase is Waiting,
        s.link is Some,
        s.link->0.is_integer(wmax),
        telegram.import_w.is_integer(import),
        telegram.export_w.is_integer(export),
        ac_power_w.is_integer(ac),
        cfg.export_limit_w.is_integer(limit),
        cfg.setpoint_encoding is Watts,
        cfg.setpoint_reg.scale.is_integer(1),
        cfg.setpoint_reg.reg_type is S32,
        !cfg.dry_run,
        0 <= wmax < 0x7FFF_FFFF,
        whole::is_small(import - export),
        whole::is_small(import - export + ac),
        whole::is_small(import - export + ac + limit),
    ensures
        ({
            let second = transition(s, cfg, times.0, Event::Received(telegram)).0;
            let third = transition(second, cfg, times.1, Event::Power(Ok(ac_power_w))).0;
            let wanted = import - export + ac + limit;
            transition(third, cfg, times.2, Event::Limit).1 == (Action::Write {
                register: cfg.setpoint_reg,
                raw: (if wanted < 0 {
                    0
                } else if wanted > wmax {
                    wmax
                } else {
                    wanted
                }) as i32,
            })
        }),
{
    let wmax_w = s.link->0;
    let one = pow2(1074) as int;
    let input = ControlInput {
        import_w: telegram.import_w,
        export_w: telegram.export_w,
        inverter_ac_w: ac_power_w,
        export_limit_w: cfg.export_limit_w,
        inverter_wmax_w: wmax_w,
    };
    let wanted = import - export + ac + limit;
    let set: int = if wanted < 0 {
        0
    } else if wanted > wmax {
        wmax
    } else {
        wanted
    };
    lemma_pow2_pos(1074);
    assert(wmax * one >= 0) by (nonlinear_arith)
        requires
            wmax >= 0,
            one > 0,
    ;
    control::law_export_is_capped(input, import, export, ac, limit, wmax);
    let x = control::setpoint(input);
    let scale = cfg.setpoint_reg.scale;
    let y = arith::quotient(x, scale);
    assert(1 * one == one);
    closest::law_quotient_is_closest(x, scale);
    // Division by one changes nothing.
    assert(abs(y.value() * scale.value() - x.value() * one) <= abs(
        x.value() * scale.value() - x.value() * one,
    ));
    assert(y.value() == x.value()) by (nonlinear_arith)
        requires
            abs(y.value() * scale.value() - x.value() * one) <= abs(
                x.value() * scale.value() - x.value() * one,
            ),
            scale.value() == one,
            one > 0,
    ;
    closest::law_round_to_integer(y);
    let r = arith::saturated_i32(y) as int;
    assert(0 <= 2 * (set * one) < 4_294_967_295 * one) by (nonlinear_arith)
        requires
            0 <= set < 0x7FFF_FFFF,
            one > 0,
    ;
    assert(r == set) by (nonlinear_arith)
        requires
            2 * abs(r * one - set * one) <= one,
            one > 0,
    ;
    control::law_ranges(y);
}

} // verus!
