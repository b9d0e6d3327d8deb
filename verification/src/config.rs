//! Configuration from environment variables. Register defaults must be
//! checked against the device's own SMA Modbus register list.

use crate::binary64::arith;
use crate::binary64::closest;
use crate::binary64::literal;
use crate::binary64::literal::LiteralError;
use crate::binary64::whole;
use crate::binary64::Binary64;
use crate::text;
use crate::text::IntegerError;
use vstd::arithmetic::power2::*;
use vstd::prelude::*;
use vstd::string::*;

verus! {

#[derive(Clone, Copy, Debug, PartialEq, Eq, Structural)]
pub enum RegisterType {
    U16,
    S16,
    U32,
    S32,
}

#[derive(Clone, Copy, Debug, PartialEq, Eq, Structural)]
pub enum SetpointEncoding {
    Watts,
    Percent,
}

#[derive(Debug)]
pub enum ConfigError {
    Missing(&'static str),
    Invalid(String),
}

/// What a `ConfigError` says: the variable that is missing, or the message.
#[verifier::ext_equal]
pub enum Fault {
    Missing(Seq<char>),
    Invalid(Seq<char>),
}

/// A register: where it is, what it holds, and what one count stands for.
#[derive(Clone, Copy, Debug)]
pub struct RegisterSpec {
    pub address: u16,
    pub reg_type: RegisterType,
    pub scale: Binary64,
}

#[derive(Debug)]
pub struct Config {
    // E20 (DSMR source).
    pub e20_host: String,
    pub e20_port: u16,
    // Inverter Modbus TCP.
    pub inverter_host: String,
    pub inverter_port: u16,
    pub inverter_unit_id_ctrl: u8,
    // Limits.
    pub export_limit_w: Binary64,
    // Highest fallback power the self-check accepts.
    pub fallback_max_w: Binary64,
    // Registers.
    pub ac_power_reg: RegisterSpec,
    pub setpoint_reg: RegisterSpec,
    pub setpoint_encoding: SetpointEncoding,
    pub fallback_mode_reg: RegisterSpec,
    pub fallback_timeout_reg: RegisterSpec,
    pub fallback_value_reg: RegisterSpec,
    pub fallback_value_encoding: SetpointEncoding,
    // Inverter.WMax: setpoint upper clamp and base of percent encodings.
    pub inverter_wmax_reg: RegisterSpec,
    // Read-only: operating mode (self-check), current limit (debug log).
    pub operating_mode_reg: RegisterSpec,
    pub current_limit_reg: RegisterSpec,
    // Inverter.WModCfg.WCtlComCfg.WCtlComAct: setpoint writes are ignored
    // unless set to 802 (Active). Write-only, so written on every arm.
    pub comm_control_activate_addr: u16,
    pub comm_control_activate: bool,
    // Refuse to arm when the self-check reports issues.
    pub selfcheck_enforce: bool,
    // Keep writing setpoints (with AC power taken as 0 W) while the AC power
    // register reads as the "not implemented" sentinel, i.e. while the
    // inverter isn't producing. When false, those cycles write nothing.
    pub write_when_not_producing: bool,
    // Timing, in milliseconds.
    pub telegram_staleness: u64,
    pub reconnect_backoff_min: u64,
    pub reconnect_backoff_max: u64,
    // Safety / ops.
    pub dry_run: bool,
    pub log_level: String,
    pub health_port: u16,
}

impl View for ConfigError {
    type V = Fault;

    open spec fn view(&self) -> Fault {
        match self {
            ConfigError::Missing(name) => Fault::Missing(name@),
            ConfigError::Invalid(message) => Fault::Invalid(message@),
        }
    }
}

/// The message of a fault.
pub open spec fn fault_text(fault: Fault) -> Seq<char> {
    match fault {
        Fault::Missing(name) => "missing required env var "@ + name,
        Fault::Invalid(message) => "invalid config: "@ + message,
    }
}

impl ConfigError {
    /// The message to show.
    pub fn message(&self) -> (r: String)
        ensures
            r@ == fault_text(self@),
    {
        match self {
            ConfigError::Missing(name) => "missing required env var ".to_owned().concat(name),
            ConfigError::Invalid(message) => "invalid config: ".to_owned().concat(message.as_str()),
        }
    }
}

/// The register type that a text names, in upper or lower case.
pub open spec fn register_type(s: Seq<char>) -> Result<RegisterType, Fault> {
    let name = text::ascii_uppercase(s);
    if name == "U16"@ {
        Ok(RegisterType::U16)
    } else if name == "S16"@ {
        Ok(RegisterType::S16)
    } else if name == "U32"@ {
        Ok(RegisterType::U32)
    } else if name == "S32"@ {
        Ok(RegisterType::S32)
    } else {
        Err(Fault::Invalid("unknown register type '"@ + name + "'"@))
    }
}

/// The encoding that a text names, in upper or lower case.
pub open spec fn setpoint_encoding(s: Seq<char>) -> Result<SetpointEncoding, Fault> {
    let name = text::ascii_uppercase(s);
    if name == "W"@ || name == "WATTS"@ {
        Ok(SetpointEncoding::Watts)
    } else if name == "PCT"@ || name == "PERCENT"@ || name == "%"@ {
        Ok(SetpointEncoding::Percent)
    } else {
        Err(Fault::Invalid("unknown setpoint encoding '"@ + name + "'"@))
    }
}

impl RegisterType {
    /// How many 16-bit words a register of this type takes.
    pub open spec fn words(self) -> nat {
        match self {
            RegisterType::U16 | RegisterType::S16 => 1,
            RegisterType::U32 | RegisterType::S32 => 2,
        }
    }

    pub fn word_count(self) -> (r: u16)
        ensures
            r == self.words(),
    {
        match self {
            RegisterType::U16 | RegisterType::S16 => 1,
            RegisterType::U32 | RegisterType::S32 => 2,
        }
    }

    pub fn from_str(s: &str) -> (r: Result<RegisterType, ConfigError>)
        ensures
            match r {
                Ok(t) => register_type(s@) == Ok::<RegisterType, Fault>(t),
                Err(e) => register_type(s@) == Err::<RegisterType, Fault>(e@),
            },
    {
        let name: Vec<char> = text::to_ascii_uppercase(&text::chars_of(s));
        if text::is_text(&name, "U16") {
            Ok(RegisterType::U16)
        } else if text::is_text(&name, "S16") {
            Ok(RegisterType::S16)
        } else if text::is_text(&name, "U32") {
            Ok(RegisterType::U32)
        } else if text::is_text(&name, "S32") {
            Ok(RegisterType::S32)
        } else {
            Err(ConfigError::Invalid(quoted("unknown register type '", &name)))
        }
    }
}

impl SetpointEncoding {
    pub fn from_str(s: &str) -> (r: Result<SetpointEncoding, ConfigError>)
        ensures
            match r {
                Ok(t) => setpoint_encoding(s@) == Ok::<SetpointEncoding, Fault>(t),
                Err(e) => setpoint_encoding(s@) == Err::<SetpointEncoding, Fault>(e@),
            },
    {
        let name: Vec<char> = text::to_ascii_uppercase(&text::chars_of(s));
        if text::is_text(&name, "W") || text::is_text(&name, "WATTS") {
            Ok(SetpointEncoding::Watts)
        } else if text::is_text(&name, "PCT") || text::is_text(&name, "PERCENT") || text::is_text(
            &name,
            "%",
        ) {
            Ok(SetpointEncoding::Percent)
        } else {
            Err(ConfigError::Invalid(quoted("unknown setpoint encoding '", &name)))
        }
    }
}

/// A message that ends with a name in quotes.
fn quoted(intro: &str, name: &Vec<char>) -> (r: String)
    ensures
        r@ == intro@ + name@ + "'"@,
{
    intro.to_owned().concat(text::string_of(name).as_str()).concat("'")
}

/// The value of the first variable called `name`.
pub open spec fn lookup(vars: Seq<(String, String)>, name: Seq<char>) -> Option<Seq<char>>
    decreases vars.len(),
{
    if vars.len() == 0 {
        None
    } else if vars[0].0@ == name {
        Some(vars[0].1@)
    } else {
        lookup(vars.skip(1), name)
    }
}

/// The value of the first variable called `name`.
fn var<'a>(vars: &'a Vec<(String, String)>, name: &str) -> (r: Option<&'a String>)
    ensures
        match r {
            Some(v) => lookup(vars@, name@) == Some(v@),
            None => lookup(vars@, name@) is None,
        },
{
    let wanted: String = name.to_owned();
    let mut i: usize = 0;
    assert(vars@.skip(0) == vars@);
    while i < vars.len()
        invariant
            i <= vars.len(),
            wanted@ == name@,
            lookup(vars@, name@) == lookup(vars@.skip(i as int), name@),
        decreases vars.len() - i,
    {
        if vars[i].0 == wanted {
            return Some(&vars[i].1);
        }
        assert(vars@.skip(i as int).skip(1) == vars@.skip(i + 1));
        i = i + 1;
    }
    None
}

/// The message for a variable whose value cannot be used.
pub open spec fn about(name: Seq<char>, problem: Seq<char>) -> Fault {
    Fault::Invalid(name + ": "@ + problem)
}

fn unusable(name: &str, problem: &str) -> (r: ConfigError)
    ensures
        r@ == about(name@, problem@),
{
    ConfigError::Invalid(name.to_owned().concat(": ").concat(problem))
}

pub open spec fn integer_problem(e: IntegerError) -> Seq<char> {
    match e {
        IntegerError::Empty => "cannot parse integer from empty string"@,
        IntegerError::InvalidDigit => "invalid digit found in string"@,
        IntegerError::TooLarge => "number too large to fit in target type"@,
    }
}

pub open spec fn literal_problem(e: LiteralError) -> Seq<char> {
    match e {
        LiteralError::Empty => "cannot parse float from empty string"@,
        LiteralError::Invalid => "invalid float literal"@,
    }
}

/// The variable, or the default if it is not set.
pub open spec fn env_str_value(
    vars: Seq<(String, String)>,
    name: Seq<char>,
    default: Seq<char>,
) -> Seq<char> {
    match lookup(vars, name) {
        Some(v) => v,
        None => default,
    }
}

fn env_str(vars: &Vec<(String, String)>, name: &str, default: &str) -> (r: String)
    ensures
        r@ == env_str_value(vars@, name@, default@),
{
    match var(vars, name) {
        Some(v) => v.clone(),
        None => default.to_owned(),
    }
}

/// The unsigned integer that a text writes, or what is wrong with it.
pub open spec fn unsigned_value(name: Seq<char>, v: Seq<char>, max: nat) -> Result<nat, Fault> {
    match text::unsigned_integer(v, max) {
        Ok(n) => Ok(n),
        Err(e) => Err(about(name, integer_problem(e))),
    }
}

/// The variable as an integer up to `max`, or the default if it is not set.
pub open spec fn env_unsigned_value(
    vars: Seq<(String, String)>,
    name: Seq<char>,
    default: nat,
    max: nat,
) -> Result<nat, Fault> {
    match lookup(vars, name) {
        Some(v) => unsigned_value(name, v, max),
        None => Ok(default),
    }
}

fn parse_unsigned(name: &str, v: &String, max: u64) -> (r: Result<u64, ConfigError>)
    ensures
        match r {
            Ok(n) => unsigned_value(name@, v@, max as nat) == Ok::<nat, Fault>(n as nat) && n <= max,
            Err(e) => unsigned_value(name@, v@, max as nat) == Err::<nat, Fault>(e@),
        },
{
    match text::parse_unsigned(&text::chars_of(v.as_str()), max) {
        Ok(n) => Ok(n),
        Err(IntegerError::Empty) => Err(unusable(name, "cannot parse integer from empty string")),
        Err(IntegerError::InvalidDigit) => Err(unusable(name, "invalid digit found in string")),
        Err(IntegerError::TooLarge) => Err(
            unusable(name, "number too large to fit in target type"),
        ),
    }
}

fn env_unsigned(vars: &Vec<(String, String)>, name: &str, default: u64, max: u64) -> (r: Result<
    u64,
    ConfigError,
>)
    requires
        default <= max,
    ensures
        match r {
            Ok(n) => env_unsigned_value(vars@, name@, default as nat, max as nat) == Ok::<nat, Fault>(
                n as nat,
            ) && n <= max,
            Err(e) => env_unsigned_value(vars@, name@, default as nat, max as nat) == Err::<
                nat,
                Fault,
            >(e@),
        },
{
    match var(vars, name) {
        Some(v) => parse_unsigned(name, v, max),
        None => Ok(default),
    }
}

fn env_u16(vars: &Vec<(String, String)>, name: &str, default: u16) -> (r: Result<u16, ConfigError>)
    ensures
        match r {
            Ok(n) => env_unsigned_value(vars@, name@, default as nat, 0xFFFF) == Ok::<nat, Fault>(
                n as nat,
            ),
            Err(e) => env_unsigned_value(vars@, name@, default as nat, 0xFFFF) == Err::<nat, Fault>(
                e@,
            ),
        },
{
    match env_unsigned(vars, name, default as u64, 0xFFFF) {
        Ok(n) => Ok(n as u16),
        Err(e) => Err(e),
    }
}

/// The variable as a number, or the default if it is not set.
pub open spec fn env_number_value(
    vars: Seq<(String, String)>,
    name: Seq<char>,
    default: Binary64,
) -> Result<Binary64, Fault> {
    match lookup(vars, name) {
        Some(v) => match literal::parsed(v) {
            Ok(x) => Ok(x),
            Err(e) => Err(about(name, literal_problem(e))),
        },
        None => Ok(default),
    }
}

fn env_number(vars: &Vec<(String, String)>, name: &str, default: Binary64) -> (r: Result<
    Binary64,
    ConfigError,
>)
    ensures
        match r {
            Ok(x) => env_number_value(vars@, name@, default) == Ok::<Binary64, Fault>(x),
            Err(e) => env_number_value(vars@, name@, default) == Err::<Binary64, Fault>(e@),
        },
{
    match var(vars, name) {
        Some(v) => match literal::parse(&text::chars_of(v.as_str())) {
            Ok(x) => Ok(x),
            Err(LiteralError::Empty) => Err(
                unusable(name, "cannot parse float from empty string"),
            ),
            Err(LiteralError::Invalid) => Err(unusable(name, "invalid float literal")),
        },
        None => Ok(default),
    }
}

/// The variable as a register type, or the default if it is not set.
pub open spec fn env_register_type_value(
    vars: Seq<(String, String)>,
    name: Seq<char>,
    default: RegisterType,
) -> Result<RegisterType, Fault> {
    match lookup(vars, name) {
        Some(v) => match register_type(v) {
            Ok(t) => Ok(t),
            Err(e) => Err(about(name, fault_text(e))),
        },
        None => Ok(default),
    }
}

fn env_register_type(vars: &Vec<(String, String)>, name: &str, default: RegisterType) -> (r: Result<
    RegisterType,
    ConfigError,
>)
    ensures
        match r {
            Ok(t) => env_register_type_value(vars@, name@, default) == Ok::<RegisterType, Fault>(t),
            Err(e) => env_register_type_value(vars@, name@, default) == Err::<RegisterType, Fault>(
                e@,
            ),
        },
{
    match var(vars, name) {
        Some(v) => match RegisterType::from_str(v.as_str()) {
            Ok(t) => Ok(t),
            Err(e) => Err(unusable(name, e.message().as_str())),
        },
        None => Ok(default),
    }
}

/// The variable as a setpoint encoding, or the default if it is not set.
pub open spec fn env_encoding_value(
    vars: Seq<(String, String)>,
    name: Seq<char>,
    default: SetpointEncoding,
) -> Result<SetpointEncoding, Fault> {
    match lookup(vars, name) {
        Some(v) => match setpoint_encoding(v) {
            Ok(t) => Ok(t),
            Err(e) => Err(about(name, fault_text(e))),
        },
        None => Ok(default),
    }
}

fn env_encoding(
    vars: &Vec<(String, String)>,
    name: &str,
    default: SetpointEncoding,
) -> (r: Result<SetpointEncoding, ConfigError>)
    ensures
        match r {
            Ok(t) => env_encoding_value(vars@, name@, default) == Ok::<SetpointEncoding, Fault>(t),
            Err(e) => env_encoding_value(vars@, name@, default) == Err::<SetpointEncoding, Fault>(
                e@,
            ),
        },
{
    match var(vars, name) {
        Some(v) => match SetpointEncoding::from_str(v.as_str()) {
            Ok(t) => Ok(t),
            Err(e) => Err(unusable(name, e.message().as_str())),
        },
        None => Ok(default),
    }
}

/// The variable as a switch, or the default if it is not set.
pub open spec fn env_bool_value(
    vars: Seq<(String, String)>,
    name: Seq<char>,
    default: bool,
) -> Result<bool, Fault> {
    match lookup(vars, name) {
        Some(v) => {
            let word = text::ascii_lowercase(v);
            if word == "1"@ || word == "true"@ || word == "yes"@ || word == "on"@ {
                Ok(true)
            } else if word == "0"@ || word == "false"@ || word == "no"@ || word == "off"@ {
                Ok(false)
            } else {
                Err(about(name, "not a bool: '"@ + word + "'"@))
            }
        },
        None => Ok(default),
    }
}

fn env_bool(vars: &Vec<(String, String)>, name: &str, default: bool) -> (r: Result<
    bool,
    ConfigError,
>)
    ensures
        match r {
            Ok(b) => env_bool_value(vars@, name@, default) == Ok::<bool, Fault>(b),
            Err(e) => env_bool_value(vars@, name@, default) == Err::<bool, Fault>(e@),
        },
{
    match var(vars, name) {
        Some(v) => {
            let word: Vec<char> = text::to_ascii_lowercase(&text::chars_of(v.as_str()));
            if text::is_text(&word, "1") || text::is_text(&word, "true") || text::is_text(
                &word,
                "yes",
            ) || text::is_text(&word, "on") {
                Ok(true)
            } else if text::is_text(&word, "0") || text::is_text(&word, "false") || text::is_text(
                &word,
                "no",
            ) || text::is_text(&word, "off") {
                Ok(false)
            } else {
                Err(unusable(name, quoted("not a bool: '", &word).as_str()))
            }
        },
        None => Ok(default),
    }
}

/// A register from three variables, looked at in the order address, type, scale.
pub open spec fn env_register_value(
    vars: Seq<(String, String)>,
    names: (Seq<char>, Seq<char>, Seq<char>),
    default: RegisterSpec,
) -> Result<RegisterSpec, Fault> {
    match env_unsigned_value(vars, names.0, default.address as nat, 0xFFFF) {
        Err(e) => Err(e),
        Ok(address) => register_at(vars, address as u16, names.1, names.2, default),
    }
}

/// A register at a known address.
pub open spec fn register_at(
    vars: Seq<(String, String)>,
    address: u16,
    kind_name: Seq<char>,
    scale_name: Seq<char>,
    default: RegisterSpec,
) -> Result<RegisterSpec, Fault> {
    match env_register_type_value(vars, kind_name, default.reg_type) {
        Err(e) => Err(e),
        Ok(reg_type) => match env_number_value(vars, scale_name, default.scale) {
            Err(e) => Err(e),
            Ok(scale) => Ok(RegisterSpec { address, reg_type, scale }),
        },
    }
}

fn env_register_at(
    vars: &Vec<(String, String)>,
    address: u16,
    kind_name: &str,
    scale_name: &str,
    default: RegisterSpec,
) -> (r: Result<RegisterSpec, ConfigError>)
    ensures
        match r {
            Ok(x) => register_at(vars@, address, kind_name@, scale_name@, default) == Ok::<
                RegisterSpec,
                Fault,
            >(x),
            Err(e) => register_at(vars@, address, kind_name@, scale_name@, default) == Err::<
                RegisterSpec,
                Fault,
            >(e@),
        },
{
    let reg_type: RegisterType = match env_register_type(vars, kind_name, default.reg_type) {
        Ok(t) => t,
        Err(e) => return Err(e),
    };
    let scale: Binary64 = match env_number(vars, scale_name, default.scale) {
        Ok(x) => x,
        Err(e) => return Err(e),
    };
    Ok(RegisterSpec { address, reg_type, scale })
}

fn env_register(
    vars: &Vec<(String, String)>,
    names: (&str, &str, &str),
    default: RegisterSpec,
) -> (r: Result<RegisterSpec, ConfigError>)
    ensures
        match r {
            Ok(x) => env_register_value(vars@, (names.0@, names.1@, names.2@), default) == Ok::<
                RegisterSpec,
                Fault,
            >(x),
            Err(e) => env_register_value(vars@, (names.0@, names.1@, names.2@), default) == Err::<
                RegisterSpec,
                Fault,
            >(e@),
        },
{
    match env_u16(vars, names.0, default.address) {
        Ok(address) => env_register_at(vars, address, names.1, names.2, default),
        Err(e) => Err(e),
    }
}

/// What the variables say of each setting: the value, or why it has none.
pub struct Settings {
    pub e20_host: Result<Seq<char>, Fault>,
    pub e20_port: Result<nat, Fault>,
    pub inverter_host: Result<Seq<char>, Fault>,
    pub inverter_port: Result<nat, Fault>,
    pub inverter_unit_id_ctrl: Result<nat, Fault>,
    pub export_limit_w: Result<Binary64, Fault>,
    pub fallback_max_w: Result<Binary64, Fault>,
    pub ac_power_reg: Result<RegisterSpec, Fault>,
    pub setpoint_reg: Result<RegisterSpec, Fault>,
    pub setpoint_encoding: Result<SetpointEncoding, Fault>,
    pub fallback_mode_reg: Result<RegisterSpec, Fault>,
    pub fallback_timeout_reg: Result<RegisterSpec, Fault>,
    pub fallback_value_reg: Result<RegisterSpec, Fault>,
    pub fallback_value_encoding: Result<SetpointEncoding, Fault>,
    pub inverter_wmax_reg: Result<RegisterSpec, Fault>,
    pub operating_mode_reg: Result<RegisterSpec, Fault>,
    pub current_limit_reg: Result<RegisterSpec, Fault>,
    pub comm_control_activate_addr: Result<nat, Fault>,
    pub comm_control_activate: Result<bool, Fault>,
    pub selfcheck_enforce: Result<bool, Fault>,
    pub write_when_not_producing: Result<bool, Fault>,
    pub telegram_staleness: Result<nat, Fault>,
    pub reconnect_backoff_min: Result<nat, Fault>,
    pub reconnect_backoff_max: Result<nat, Fault>,
    pub dry_run: Result<bool, Fault>,
    pub log_level: Seq<char>,
    pub health_port: Result<nat, Fault>,
}

/// A variable without a default.
pub open spec fn required(vars: Seq<(String, String)>, name: Seq<char>) -> Result<
    Seq<char>,
    Fault,
> {
    match lookup(vars, name) {
        Some(v) => Ok(v),
        None => Err(Fault::Missing(name)),
    }
}

/// A register of one unit per count.
pub open spec fn unscaled(address: u16, reg_type: RegisterType) -> RegisterSpec {
    RegisterSpec { address, reg_type, scale: arith::integer(1) }
}

/// One hundredth, as near as a number comes to it.
pub open spec fn hundredth() -> Binary64 {
    arith::quotient(arith::integer(1), arith::integer(100))
}

/// The setpoint register: its address must be given.
pub open spec fn setpoint_register(vars: Seq<(String, String)>) -> Result<RegisterSpec, Fault> {
    match lookup(vars, "SETPOINT_ADDR"@) {
        None => Err(Fault::Missing("SETPOINT_ADDR"@)),
        Some(v) => match unsigned_value("SETPOINT_ADDR"@, v, 0xFFFF) {
            Err(e) => Err(e),
            Ok(address) => register_at(
                vars,
                address as u16,
                "SETPOINT_TYPE"@,
                "SETPOINT_SCALE"@,
                unscaled(0, RegisterType::S32),
            ),
        },
    }
}

/// What the variables say, with the defaults of those that are not set.
pub open spec fn settings(vars: Seq<(String, String)>) -> Settings {
    let export_limit_w = env_number_value(vars, "EXPORT_LIMIT_W"@, arith::integer(2500));
    Settings {
        e20_host: required(vars, "E20_HOST"@),
        e20_port: env_unsigned_value(vars, "E20_PORT"@, 23, 0xFFFF),
        inverter_host: required(vars, "INVERTER_HOST"@),
        inverter_port: env_unsigned_value(vars, "INVERTER_PORT"@, 502, 0xFFFF),
        inverter_unit_id_ctrl: env_unsigned_value(vars, "INVERTER_UNIT_ID_CTRL"@, 3, 0xFF),
        export_limit_w,
        fallback_max_w: match export_limit_w {
            Ok(limit) => env_number_value(vars, "FALLBACK_MAX_W"@, limit),
            Err(e) => Err(e),
        },
        ac_power_reg: env_register_value(
            vars,
            ("AC_POWER_ADDR"@, "AC_POWER_TYPE"@, "AC_POWER_SCALE"@),
            unscaled(30775, RegisterType::S32),
        ),
        setpoint_reg: setpoint_register(vars),
        setpoint_encoding: env_encoding_value(
            vars,
            "SETPOINT_ENCODING"@,
            SetpointEncoding::Percent,
        ),
        fallback_mode_reg: env_register_value(
            vars,
            ("FALLBACK_MODE_ADDR"@, "FALLBACK_MODE_TYPE"@, "FALLBACK_MODE_SCALE"@),
            unscaled(41193, RegisterType::U32),
        ),
        fallback_timeout_reg: env_register_value(
            vars,
            ("FALLBACK_TIMEOUT_ADDR"@, "FALLBACK_TIMEOUT_TYPE"@, "FALLBACK_TIMEOUT_SCALE"@),
            unscaled(41195, RegisterType::U32),
        ),
        fallback_value_reg: env_register_value(
            vars,
            ("FALLBACK_VALUE_ADDR"@, "FALLBACK_VALUE_TYPE"@, "FALLBACK_VALUE_SCALE"@),
            RegisterSpec { address: 41197, reg_type: RegisterType::U32, scale: hundredth() },
        ),
        fallback_value_encoding: env_encoding_value(
            vars,
            "FALLBACK_VALUE_ENCODING"@,
            SetpointEncoding::Percent,
        ),
        inverter_wmax_reg: env_register_value(
            vars,
            ("INVERTER_WMAX_ADDR"@, "INVERTER_WMAX_TYPE"@, "INVERTER_WMAX_SCALE"@),
            unscaled(30233, RegisterType::U32),
        ),
        operating_mode_reg: env_register_value(
            vars,
            ("OPERATING_MODE_ADDR"@, "OPERATING_MODE_TYPE"@, "OPERATING_MODE_SCALE"@),
            unscaled(30835, RegisterType::U32),
        ),
        current_limit_reg: env_register_value(
            vars,
            ("CURRENT_LIMIT_ADDR"@, "CURRENT_LIMIT_TYPE"@, "CURRENT_LIMIT_SCALE"@),
            unscaled(31405, RegisterType::U32),
        ),
        comm_control_activate_addr: env_unsigned_value(
            vars,
            "COMM_CONTROL_ACTIVATE_ADDR"@,
            40151,
            0xFFFF,
        ),
        comm_control_activate: env_bool_value(vars, "COMM_CONTROL_ACTIVATE"@, true),
        selfcheck_enforce: env_bool_value(vars, "SELFCHECK_ENFORCE"@, true),
        write_when_not_producing: env_bool_value(vars, "WRITE_WHEN_NOT_PRODUCING"@, false),
        telegram_staleness: env_unsigned_value(
            vars,
            "TELEGRAM_STALENESS_MS"@,
            3000,
            u64::MAX as nat,
        ),
        reconnect_backoff_min: env_unsigned_value(
            vars,
            "RECONNECT_BACKOFF_MIN_MS"@,
            500,
            u64::MAX as nat,
        ),
        reconnect_backoff_max: env_unsigned_value(
            vars,
            "RECONNECT_BACKOFF_MAX_MS"@,
            30_000,
            u64::MAX as nat,
        ),
        dry_run: env_bool_value(vars, "DRY_RUN"@, true),
        log_level: env_str_value(vars, "LOG_LEVEL"@, "info"@),
        health_port: env_unsigned_value(vars, "HEALTH_PORT"@, 8080, 0xFFFF),
    }
}

pub open spec fn fault_of<T>(r: Result<T, Fault>) -> Option<Fault> {
    match r {
        Ok(_) => None,
        Err(e) => Some(e),
    }
}

/// The first of two faults.
pub open spec fn earlier(a: Option<Fault>, b: Option<Fault>) -> Option<Fault> {
    if a is Some {
        a
    } else {
        b
    }
}

impl Settings {
    /// The fault to report: the first one, in this order.
    pub open spec fn first_fault(self) -> Option<Fault> {
        let f = fault_of(self.health_port);
        let f = earlier(fault_of(self.write_when_not_producing), f);
        let f = earlier(fault_of(self.selfcheck_enforce), f);
        let f = earlier(fault_of(self.comm_control_activate), f);
        let f = earlier(fault_of(self.comm_control_activate_addr), f);
        let f = earlier(fault_of(self.current_limit_reg), f);
        let f = earlier(fault_of(self.operating_mode_reg), f);
        let f = earlier(fault_of(self.inverter_wmax_reg), f);
        let f = earlier(fault_of(self.fallback_value_encoding), f);
        let f = earlier(fault_of(self.fallback_value_reg), f);
        let f = earlier(fault_of(self.fallback_timeout_reg), f);
        let f = earlier(fault_of(self.fallback_mode_reg), f);
        let f = earlier(fault_of(self.fallback_max_w), f);
        let f = earlier(fault_of(self.inverter_unit_id_ctrl), f);
        let f = earlier(fault_of(self.inverter_port), f);
        let f = earlier(fault_of(self.e20_port), f);
        let f = earlier(fault_of(self.reconnect_backoff_max), f);
        let f = earlier(fault_of(self.reconnect_backoff_min), f);
        let f = earlier(fault_of(self.telegram_staleness), f);
        let f = earlier(fault_of(self.export_limit_w), f);
        let f = earlier(fault_of(self.setpoint_reg), f);
        let f = earlier(fault_of(self.setpoint_encoding), f);
        let f = earlier(fault_of(self.ac_power_reg), f);
        let f = earlier(fault_of(self.dry_run), f);
        let f = earlier(fault_of(self.inverter_host), f);
        earlier(fault_of(self.e20_host), f)
    }
}

impl Config {
    /// What the configuration holds.
    pub open spec fn settings(&self) -> Settings {
        Settings {
            e20_host: Ok(self.e20_host@),
            e20_port: Ok(self.e20_port as nat),
            inverter_host: Ok(self.inverter_host@),
            inverter_port: Ok(self.inverter_port as nat),
            inverter_unit_id_ctrl: Ok(self.inverter_unit_id_ctrl as nat),
            export_limit_w: Ok(self.export_limit_w),
            fallback_max_w: Ok(self.fallback_max_w),
            ac_power_reg: Ok(self.ac_power_reg),
            setpoint_reg: Ok(self.setpoint_reg),
            setpoint_encoding: Ok(self.setpoint_encoding),
            fallback_mode_reg: Ok(self.fallback_mode_reg),
            fallback_timeout_reg: Ok(self.fallback_timeout_reg),
            fallback_value_reg: Ok(self.fallback_value_reg),
            fallback_value_encoding: Ok(self.fallback_value_encoding),
            inverter_wmax_reg: Ok(self.inverter_wmax_reg),
            operating_mode_reg: Ok(self.operating_mode_reg),
            current_limit_reg: Ok(self.current_limit_reg),
            comm_control_activate_addr: Ok(self.comm_control_activate_addr as nat),
            comm_control_activate: Ok(self.comm_control_activate),
            selfcheck_enforce: Ok(self.selfcheck_enforce),
            write_when_not_producing: Ok(self.write_when_not_producing),
            telegram_staleness: Ok(self.telegram_staleness as nat),
            reconnect_backoff_min: Ok(self.reconnect_backoff_min as nat),
            reconnect_backoff_max: Ok(self.reconnect_backoff_max as nat),
            dry_run: Ok(self.dry_run),
            log_level: self.log_level@,
            health_port: Ok(self.health_port as nat),
        }
    }

    /// Reads the configuration from the environment variables: each with its
    /// name and its value.
    pub fn from_env(vars: &Vec<(String, String)>) -> (r: Result<Config, ConfigError>)
        ensures
            match r {
                Ok(c) => c.settings() == settings(vars@) && settings(vars@).first_fault() is None,
                Err(e) => settings(vars@).first_fault() == Some(e@),
            },
    {
        let one: Binary64 = Binary64::from_i64(1);
        let e20_host: String = match var(vars, "E20_HOST") {
            Some(v) => v.clone(),
            None => return Err(ConfigError::Missing("E20_HOST")),
        };
        let inverter_host: String = match var(vars, "INVERTER_HOST") {
            Some(v) => v.clone(),
            None => return Err(ConfigError::Missing("INVERTER_HOST")),
        };

        // Defaults to true so that a first run never writes.
        let dry_run: bool = match env_bool(vars, "DRY_RUN", true) {
            Ok(x) => x,
            Err(e) => return Err(e),
        };

        let ac_power_reg: RegisterSpec = match env_register(
            vars,
            ("AC_POWER_ADDR", "AC_POWER_TYPE", "AC_POWER_SCALE"),
            RegisterSpec { address: 30775, reg_type: RegisterType::S32, scale: one },
        ) {
            Ok(x) => x,
            Err(e) => return Err(e),
        };

        let setpoint_encoding: SetpointEncoding = match env_encoding(
            vars,
            "SETPOINT_ENCODING",
            SetpointEncoding::Percent,
        ) {
            Ok(x) => x,
            Err(e) => return Err(e),
        };
        // No default: the setpoint register must be checked per device.
        let setpoint_addr: &String = match var(vars, "SETPOINT_ADDR") {
            Some(v) => v,
            None => return Err(ConfigError::Missing("SETPOINT_ADDR")),
        };
        let setpoint_address: u64 = match parse_unsigned("SETPOINT_ADDR", setpoint_addr, 0xFFFF) {
            Ok(x) => x,
            Err(e) => return Err(e),
        };
        let setpoint_reg: RegisterSpec = match env_register_at(
            vars,
            setpoint_address as u16,
            "SETPOINT_TYPE",
            "SETPOINT_SCALE",
            RegisterSpec { address: 0, reg_type: RegisterType::S32, scale: one },
        ) {
            Ok(x) => x,
            Err(e) => return Err(e),
        };

        let export_limit_w: Binary64 = match env_number(
            vars,
            "EXPORT_LIMIT_W",
            Binary64::from_i64(2500),
        ) {
            Ok(x) => x,
            Err(e) => return Err(e),
        };

        let telegram_staleness: u64 = match env_unsigned(
            vars,
            "TELEGRAM_STALENESS_MS",
            3000,
            u64::MAX,
        ) {
            Ok(x) => x,
            Err(e) => return Err(e),
        };
        let reconnect_backoff_min: u64 = match env_unsigned(
            vars,
            "RECONNECT_BACKOFF_MIN_MS",
            500,
            u64::MAX,
        ) {
            Ok(x) => x,
            Err(e) => return Err(e),
        };
        let reconnect_backoff_max: u64 = match env_unsigned(
            vars,
            "RECONNECT_BACKOFF_MAX_MS",
            30_000,
            u64::MAX,
        ) {
            Ok(x) => x,
            Err(e) => return Err(e),
        };

        let e20_port: u16 = match env_u16(vars, "E20_PORT", 23) {
            Ok(x) => x,
            Err(e) => return Err(e),
        };
        let inverter_port: u16 = match env_u16(vars, "INVERTER_PORT", 502) {
            Ok(x) => x,
            Err(e) => return Err(e),
        };
        let inverter_unit_id_ctrl: u64 = match env_unsigned(
            vars,
            "INVERTER_UNIT_ID_CTRL",
            3,
            0xFF,
        ) {
            Ok(x) => x,
            Err(e) => return Err(e),
        };
        let fallback_max_w: Binary64 = match env_number(vars, "FALLBACK_MAX_W", export_limit_w) {
            Ok(x) => x,
            Err(e) => return Err(e),
        };

        // Per the SMA Modbus register list for SBxx-1AV-41 firmware
        // 4.01.15.R, pre-2018 country dataset. 41197 is FlbWNom, a
        // percentage of Inverter.WMax.
        let fallback_mode_reg: RegisterSpec = match env_register(
            vars,
            ("FALLBACK_MODE_ADDR", "FALLBACK_MODE_TYPE", "FALLBACK_MODE_SCALE"),
            RegisterSpec { address: 41193, reg_type: RegisterType::U32, scale: one },
        ) {
            Ok(x) => x,
            Err(e) => return Err(e),
        };
        let fallback_timeout_reg: RegisterSpec = match env_register(
            vars,
            ("FALLBACK_TIMEOUT_ADDR", "FALLBACK_TIMEOUT_TYPE", "FALLBACK_TIMEOUT_SCALE"),
            RegisterSpec { address: 41195, reg_type: RegisterType::U32, scale: one },
        ) {
            Ok(x) => x,
            Err(e) => return Err(e),
        };
        let hundredth: Binary64 = one.divided_by(Binary64::from_i64(100));
        let fallback_value_reg: RegisterSpec = match env_register(
            vars,
            ("FALLBACK_VALUE_ADDR", "FALLBACK_VALUE_TYPE", "FALLBACK_VALUE_SCALE"),
            RegisterSpec { address: 41197, reg_type: RegisterType::U32, scale: hundredth },
        ) {
            Ok(x) => x,
            Err(e) => return Err(e),
        };
        let fallback_value_encoding: SetpointEncoding = match env_encoding(
            vars,
            "FALLBACK_VALUE_ENCODING",
            SetpointEncoding::Percent,
        ) {
            Ok(x) => x,
            Err(e) => return Err(e),
        };
        let inverter_wmax_reg: RegisterSpec = match env_register(
            vars,
            ("INVERTER_WMAX_ADDR", "INVERTER_WMAX_TYPE", "INVERTER_WMAX_SCALE"),
            RegisterSpec { address: 30233, reg_type: RegisterType::U32, scale: one },
        ) {
            Ok(x) => x,
            Err(e) => return Err(e),
        };
        // Inverter.WModCfg.WMod: expect 1079 ("External active power
        // setpoint").
        let operating_mode_reg: RegisterSpec = match env_register(
            vars,
            ("OPERATING_MODE_ADDR", "OPERATING_MODE_TYPE", "OPERATING_MODE_SCALE"),
            RegisterSpec { address: 30835, reg_type: RegisterType::U32, scale: one },
        ) {
            Ok(x) => x,
            Err(e) => return Err(e),
        };
        // Operation.Dmd.WCtl: the limit currently enforced.
        let current_limit_reg: RegisterSpec = match env_register(
            vars,
            ("CURRENT_LIMIT_ADDR", "CURRENT_LIMIT_TYPE", "CURRENT_LIMIT_SCALE"),
            RegisterSpec { address: 31405, reg_type: RegisterType::U32, scale: one },
        ) {
            Ok(x) => x,
            Err(e) => return Err(e),
        };
        let comm_control_activate_addr: u16 = match env_u16(
            vars,
            "COMM_CONTROL_ACTIVATE_ADDR",
            40151,
        ) {
            Ok(x) => x,
            Err(e) => return Err(e),
        };
        let comm_control_activate: bool = match env_bool(vars, "COMM_CONTROL_ACTIVATE", true) {
            Ok(x) => x,
            Err(e) => return Err(e),
        };
        let selfcheck_enforce: bool = match env_bool(vars, "SELFCHECK_ENFORCE", true) {
            Ok(x) => x,
            Err(e) => return Err(e),
        };
        let write_when_not_producing: bool = match env_bool(
            vars,
            "WRITE_WHEN_NOT_PRODUCING",
            false,
        ) {
            Ok(x) => x,
            Err(e) => return Err(e),
        };
        let log_level: String = env_str(vars, "LOG_LEVEL", "info");
        let health_port: u16 = match env_u16(vars, "HEALTH_PORT", 8080) {
            Ok(x) => x,
            Err(e) => return Err(e),
        };
        Ok(
            Config {
                e20_host,
                e20_port,
                inverter_host,
                inverter_port,
                inverter_unit_id_ctrl: inverter_unit_id_ctrl as u8,
                export_limit_w,
                fallback_max_w,
                ac_power_reg,
                setpoint_reg,
                setpoint_encoding,
                fallback_mode_reg,
                fallback_timeout_reg,
                fallback_value_reg,
                fallback_value_encoding,
                inverter_wmax_reg,
                operating_mode_reg,
                current_limit_reg,
                comm_control_activate_addr,
                comm_control_activate,
                selfcheck_enforce,
                write_when_not_producing,
                telegram_staleness,
                reconnect_backoff_min,
                reconnect_backoff_max,
                dry_run,
                log_level,
                health_port,
            },
        )
    }
}

/// The port that the health probe asks: `HEALTH_PORT` if that is a port, else
/// the default.
pub open spec fn probe_port_value(vars: Seq<(String, String)>) -> nat {
    match env_unsigned_value(vars, "HEALTH_PORT"@, 8080, 0xFFFF) {
        Ok(port) => port,
        Err(_) => 8080,
    }
}

pub fn probe_port(vars: &Vec<(String, String)>) -> (r: u16)
    ensures
        r == probe_port_value(vars@),
{
    match env_u16(vars, "HEALTH_PORT", 8080) {
        Ok(port) => port,
        Err(_) => 8080,
    }
}

/// Without `DRY_RUN` the daemon runs dry.
pub proof fn law_first_run_is_dry(vars: Seq<(String, String)>)
    requires
        lookup(vars, "DRY_RUN"@) is None,
    ensures
        settings(vars).dry_run == Ok::<bool, Fault>(true),
{
}

/// Without the hosts or the setpoint address there is no configuration.
pub proof fn law_required_variables(vars: Seq<(String, String)>)
    requires
        lookup(vars, "E20_HOST"@) is None || lookup(vars, "INVERTER_HOST"@) is None || lookup(
            vars,
            "SETPOINT_ADDR"@,
        ) is None,
    ensures
        settings(vars).first_fault() is Some,
{
}

/// Without `FALLBACK_MAX_W` the self-check accepts a fallback power up to the
/// export limit.
pub proof fn law_fallback_max_defaults_to_export_limit(vars: Seq<(String, String)>)
    requires
        lookup(vars, "FALLBACK_MAX_W"@) is None,
    ensures
        settings(vars).fallback_max_w == settings(vars).export_limit_w,
{
}

/// The hosts and a setpoint address are enough.
pub proof fn law_defaults_suffice(vars: Seq<(String, String)>)
    requires
        lookup(vars, "E20_HOST"@) is Some,
        lookup(vars, "INVERTER_HOST"@) is Some,
        lookup(vars, "SETPOINT_ADDR"@) is Some,
        text::unsigned_integer(lookup(vars, "SETPOINT_ADDR"@)->0, 0xFFFF) is Ok,
        forall|name: Seq<char>|
            name != "E20_HOST"@ && name != "INVERTER_HOST"@ && name != "SETPOINT_ADDR"@
                ==> #[trigger] lookup(vars, name) is None,
    ensures
        settings(vars).first_fault() is None,
{
    reveal_strlit("E20_HOST");
    reveal_strlit("INVERTER_HOST");
    reveal_strlit("SETPOINT_ADDR");
    reveal_strlit("EXPORT_LIMIT_W");
    reveal_strlit("E20_PORT");
    reveal_strlit("INVERTER_PORT");
    reveal_strlit("INVERTER_UNIT_ID_CTRL");
    reveal_strlit("FALLBACK_MAX_W");
    reveal_strlit("AC_POWER_ADDR");
    reveal_strlit("AC_POWER_TYPE");
    reveal_strlit("AC_POWER_SCALE");
    reveal_strlit("SETPOINT_ENCODING");
    reveal_strlit("FALLBACK_MODE_ADDR");
    reveal_strlit("FALLBACK_MODE_TYPE");
    reveal_strlit("FALLBACK_MODE_SCALE");
    reveal_strlit("FALLBACK_TIMEOUT_ADDR");
    reveal_strlit("FALLBACK_TIMEOUT_TYPE");
    reveal_strlit("FALLBACK_TIMEOUT_SCALE");
    reveal_strlit("FALLBACK_VALUE_ADDR");
    reveal_strlit("FALLBACK_VALUE_TYPE");
    reveal_strlit("FALLBACK_VALUE_SCALE");
    reveal_strlit("FALLBACK_VALUE_ENCODING");
    reveal_strlit("INVERTER_WMAX_ADDR");
    reveal_strlit("INVERTER_WMAX_TYPE");
    reveal_strlit("INVERTER_WMAX_SCALE");
    reveal_strlit("OPERATING_MODE_ADDR");
    reveal_strlit("OPERATING_MODE_TYPE");
    reveal_strlit("OPERATING_MODE_SCALE");
    reveal_strlit("CURRENT_LIMIT_ADDR");
    reveal_strlit("CURRENT_LIMIT_TYPE");
    reveal_strlit("CURRENT_LIMIT_SCALE");
    reveal_strlit("COMM_CONTROL_ACTIVATE_ADDR");
    reveal_strlit("COMM_CONTROL_ACTIVATE");
    reveal_strlit("SELFCHECK_ENFORCE");
    reveal_strlit("WRITE_WHEN_NOT_PRODUCING");
    reveal_strlit("TELEGRAM_STALENESS_MS");
    reveal_strlit("RECONNECT_BACKOFF_MIN_MS");
    reveal_strlit("RECONNECT_BACKOFF_MAX_MS");
    reveal_strlit("DRY_RUN");
    reveal_strlit("LOG_LEVEL");
    reveal_strlit("HEALTH_PORT");
    reveal_strlit("SETPOINT_TYPE");
    reveal_strlit("SETPOINT_SCALE");
    assert("E20_PORT"@[4] != "E20_HOST"@[4]);
    assert("INVERTER_PORT"@[9] != "INVERTER_HOST"@[9]);
    assert("INVERTER_PORT"@[0] != "SETPOINT_ADDR"@[0]);
    assert("AC_POWER_ADDR"@[0] != "INVERTER_HOST"@[0]);
    assert("AC_POWER_ADDR"@[0] != "SETPOINT_ADDR"@[0]);
    assert("AC_POWER_TYPE"@[0] != "INVERTER_HOST"@[0]);
    assert("AC_POWER_TYPE"@[0] != "SETPOINT_ADDR"@[0]);
    assert("SETPOINT_TYPE"@[0] != "INVERTER_HOST"@[0]);
    assert("SETPOINT_TYPE"@[9] != "SETPOINT_ADDR"@[9]);
}

/// Upper and lower case name the same register type and encoding.
pub proof fn law_case_does_not_matter(s: Seq<char>)
    ensures
        register_type(text::ascii_lowercase(s)) == register_type(s),
        register_type(text::ascii_uppercase(s)) == register_type(s),
        setpoint_encoding(text::ascii_lowercase(s)) == setpoint_encoding(s),
        setpoint_encoding(text::ascii_uppercase(s)) == setpoint_encoding(s),
{
    assert(text::ascii_uppercase(text::ascii_lowercase(s)) == text::ascii_uppercase(s));
    assert(text::ascii_uppercase(text::ascii_uppercase(s)) == text::ascii_uppercase(s));
}

/// What a variable holds.
pub enum Kind {
    /// A name that must be given.
    Host,
    /// A 16-bit number that must be given.
    Address,
    /// A number up to a maximum.
    Integer(nat),
    Number,
    Switch,
    Type,
    Encoding,
}

/// How many variables can be at fault.
pub open spec fn variable_count() -> int {
    42
}

/// The variables that can be at fault, in the order in which they are looked at.
pub open spec fn variable(i: int) -> (Seq<char>, Kind) {
    if i == 0 {
        ("E20_HOST"@, Kind::Host)
    } else if i == 1 {
        ("INVERTER_HOST"@, Kind::Host)
    } else if i == 2 {
        ("DRY_RUN"@, Kind::Switch)
    } else if i == 3 {
        ("AC_POWER_ADDR"@, Kind::Integer(0xFFFF))
    } else if i == 4 {
        ("AC_POWER_TYPE"@, Kind::Type)
    } else if i == 5 {
        ("AC_POWER_SCALE"@, Kind::Number)
    } else if i == 6 {
        ("SETPOINT_ENCODING"@, Kind::Encoding)
    } else if i == 7 {
        ("SETPOINT_ADDR"@, Kind::Address)
    } else if i == 8 {
        ("SETPOINT_TYPE"@, Kind::Type)
    } else if i == 9 {
        ("SETPOINT_SCALE"@, Kind::Number)
    } else if i == 10 {
        ("EXPORT_LIMIT_W"@, Kind::Number)
    } else if i == 11 {
        ("TELEGRAM_STALENESS_MS"@, Kind::Integer(0xFFFF_FFFF_FFFF_FFFF))
    } else if i == 12 {
        ("RECONNECT_BACKOFF_MIN_MS"@, Kind::Integer(0xFFFF_FFFF_FFFF_FFFF))
    } else if i == 13 {
        ("RECONNECT_BACKOFF_MAX_MS"@, Kind::Integer(0xFFFF_FFFF_FFFF_FFFF))
    } else if i == 14 {
        ("E20_PORT"@, Kind::Integer(0xFFFF))
    } else if i == 15 {
        ("INVERTER_PORT"@, Kind::Integer(0xFFFF))
    } else if i == 16 {
        ("INVERTER_UNIT_ID_CTRL"@, Kind::Integer(0xFF))
    } else if i == 17 {
        ("FALLBACK_MAX_W"@, Kind::Number)
    } else if i == 18 {
        ("FALLBACK_MODE_ADDR"@, Kind::Integer(0xFFFF))
    } else if i == 19 {
        ("FALLBACK_MODE_TYPE"@, Kind::Type)
    } else if i == 20 {
        ("FALLBACK_MODE_SCALE"@, Kind::Number)
    } else if i == 21 {
        ("FALLBACK_TIMEOUT_ADDR"@, Kind::Integer(0xFFFF))
    } else if i == 22 {
        ("FALLBACK_TIMEOUT_TYPE"@, Kind::Type)
    } else if i == 23 {
        ("FALLBACK_TIMEOUT_SCALE"@, Kind::Number)
    } else if i == 24 {
        ("FALLBACK_VALUE_ADDR"@, Kind::Integer(0xFFFF))
    } else if i == 25 {
        ("FALLBACK_VALUE_TYPE"@, Kind::Type)
    } else if i == 26 {
        ("FALLBACK_VALUE_SCALE"@, Kind::Number)
    } else if i == 27 {
        ("FALLBACK_VALUE_ENCODING"@, Kind::Encoding)
    } else if i == 28 {
        ("INVERTER_WMAX_ADDR"@, Kind::Integer(0xFFFF))
    } else if i == 29 {
        ("INVERTER_WMAX_TYPE"@, Kind::Type)
    } else if i == 30 {
        ("INVERTER_WMAX_SCALE"@, Kind::Number)
    } else if i == 31 {
        ("OPERATING_MODE_ADDR"@, Kind::Integer(0xFFFF))
    } else if i == 32 {
        ("OPERATING_MODE_TYPE"@, Kind::Type)
    } else if i == 33 {
        ("OPERATING_MODE_SCALE"@, Kind::Number)
    } else if i == 34 {
        ("CURRENT_LIMIT_ADDR"@, Kind::Integer(0xFFFF))
    } else if i == 35 {
        ("CURRENT_LIMIT_TYPE"@, Kind::Type)
    } else if i == 36 {
        ("CURRENT_LIMIT_SCALE"@, Kind::Number)
    } else if i == 37 {
        ("COMM_CONTROL_ACTIVATE_ADDR"@, Kind::Integer(0xFFFF))
    } else if i == 38 {
        ("COMM_CONTROL_ACTIVATE"@, Kind::Switch)
    } else if i == 39 {
        ("SELFCHECK_ENFORCE"@, Kind::Switch)
    } else if i == 40 {
        ("WRITE_WHEN_NOT_PRODUCING"@, Kind::Switch)
    } else {
        ("HEALTH_PORT"@, Kind::Integer(0xFFFF))
    }
}

/// What is said of a text that is no integer.
pub open spec fn integer_complaint(v: Seq<char>, max: nat) -> Option<Seq<char>> {
    match text::unsigned_integer(v, max) {
        Ok(_) => None,
        Err(IntegerError::Empty) => Some("cannot parse integer from empty string"@),
        Err(IntegerError::InvalidDigit) => Some("invalid digit found in string"@),
        Err(IntegerError::TooLarge) => Some("number too large to fit in target type"@),
    }
}

/// What is said of the text of a variable.
pub open spec fn text_complaint(kind: Kind, v: Seq<char>) -> Option<Seq<char>> {
    let upper = text::ascii_uppercase(v);
    let lower = text::ascii_lowercase(v);
    match kind {
        Kind::Host => None,
        Kind::Address => integer_complaint(v, 0xFFFF),
        Kind::Integer(max) => integer_complaint(v, max),
        Kind::Number => match literal::parsed(v) {
            Ok(_) => None,
            Err(LiteralError::Empty) => Some("cannot parse float from empty string"@),
            Err(LiteralError::Invalid) => Some("invalid float literal"@),
        },
        Kind::Switch => if lower == "1"@ || lower == "true"@ || lower == "yes"@ || lower == "on"@
            || lower == "0"@ || lower == "false"@ || lower == "no"@ || lower == "off"@ {
            None
        } else {
            Some("not a bool: '"@ + lower + "'"@)
        },
        Kind::Type => if upper == "U16"@ || upper == "S16"@ || upper == "U32"@ || upper == "S32"@ {
            None
        } else {
            Some("invalid config: "@ + ("unknown register type '"@ + upper + "'"@))
        },
        Kind::Encoding => if upper == "W"@ || upper == "WATTS"@ || upper == "PCT"@ || upper
            == "PERCENT"@ || upper == "%"@ {
            None
        } else {
            Some("invalid config: "@ + ("unknown setpoint encoding '"@ + upper + "'"@))
        },
    }
}

/// What is wrong with one variable.
#[verifier::opaque]
pub open spec fn complaint_of(vars: Seq<(String, String)>, name: Seq<char>, kind: Kind) -> Option<
    Fault,
> {
    match lookup(vars, name) {
        None => if kind is Host || kind is Address {
            Some(Fault::Missing(name))
        } else {
            None
        },
        Some(v) => match text_complaint(kind, v) {
            None => None,
            Some(problem) => Some(Fault::Invalid(name + ": "@ + problem)),
        },
    }
}

/// What is wrong with the variable at `i`.
pub open spec fn complaint(vars: Seq<(String, String)>, i: int) -> Option<Fault> {
    complaint_of(vars, variable(i).0, variable(i).1)
}

/// The value of a variable is that of its first occurrence by that very name.
pub proof fn law_lookup(vars: Seq<(String, String)>, name: Seq<char>)
    ensures
        match lookup(vars, name) {
            Some(v) => exists|i: int|
                0 <= i < vars.len() && (#[trigger] vars[i]).0@ == name && vars[i].1@ == v
                    && forall|j: int| 0 <= j < i ==> (#[trigger] vars[j]).0@ != name,
            None => forall|j: int| 0 <= j < vars.len() ==> (#[trigger] vars[j]).0@ != name,
        },
    decreases vars.len(),
{
    if vars.len() > 0 && vars[0].0@ != name {
        let rest = vars.skip(1);
        law_lookup(rest, name);
        match lookup(rest, name) {
            Some(v) => {
                let i = choose|i: int|
                    0 <= i < rest.len() && (#[trigger] rest[i]).0@ == name && rest[i].1@ == v
                        && forall|j: int| 0 <= j < i ==> (#[trigger] rest[j]).0@ != name;
                assert(vars[i + 1] == rest[i]);
                assert forall|j: int| 0 <= j < i + 1 implies (#[trigger] vars[j]).0@ != name by {
                    if j > 0 {
                        assert(vars[j] == rest[j - 1]);
                    }
                }
            },
            None => {
                assert forall|j: int| 0 <= j < vars.len() implies (#[trigger] vars[j]).0@
                    != name by {
                    if j > 0 {
                        assert(vars[j] == rest[j - 1]);
                    }
                }
            },
        }
    } else if vars.len() > 0 {
        assert(vars[0].0@ == name);
    }
}

proof fn lemma_integer_fault(vars: Seq<(String, String)>, name: Seq<char>, default: nat, max: nat)
    ensures
        fault_of(env_unsigned_value(vars, name, default, max)) == complaint_of(
            vars,
            name,
            Kind::Integer(max),
        ),
        default <= max ==> (env_unsigned_value(vars, name, default, max) matches Ok(n) ==> n <= max
            && is_given_integer(vars, name, default, max, n)),
{
    reveal(complaint_of);
    if let Some(v) = lookup(vars, name) {
        if let Ok(n) = text::unsigned_integer(v, max) {
            text::law_unsigned_integers(v, max, n);
        }
    }
}

proof fn lemma_number_fault(vars: Seq<(String, String)>, name: Seq<char>, default: Binary64)
    ensures
        fault_of(env_number_value(vars, name, default)) == complaint_of(vars, name, Kind::Number),
        env_number_value(vars, name, default) matches Ok(x) ==> is_given_number(
            vars,
            name,
            default,
            x,
        ),
{
    reveal(complaint_of);
}

proof fn lemma_switch_fault(vars: Seq<(String, String)>, name: Seq<char>, default: bool)
    ensures
        fault_of(env_bool_value(vars, name, default)) == complaint_of(vars, name, Kind::Switch),
        env_bool_value(vars, name, default) matches Ok(on) ==> is_given_switch(
            vars,
            name,
            default,
            on,
        ),
{
    reveal(complaint_of);
}

proof fn lemma_type_fault(vars: Seq<(String, String)>, name: Seq<char>, default: RegisterType)
    ensures
        fault_of(env_register_type_value(vars, name, default)) == complaint_of(
            vars,
            name,
            Kind::Type,
        ),
        env_register_type_value(vars, name, default) matches Ok(t) ==> is_given_type(
            vars,
            name,
            default,
            t,
        ),
{
    reveal(complaint_of);
}

proof fn lemma_encoding_fault(
    vars: Seq<(String, String)>,
    name: Seq<char>,
    default: SetpointEncoding,
)
    ensures
        fault_of(env_encoding_value(vars, name, default)) == complaint_of(
            vars,
            name,
            Kind::Encoding,
        ),
        env_encoding_value(vars, name, default) matches Ok(t) ==> is_given_encoding(
            vars,
            name,
            default,
            t,
        ),
{
    reveal(complaint_of);
}

proof fn lemma_register_fault(
    vars: Seq<(String, String)>,
    names: (Seq<char>, Seq<char>, Seq<char>),
    default: RegisterSpec,
)
    ensures
        fault_of(env_register_value(vars, names, default)) == earlier(
            complaint_of(vars, names.0, Kind::Integer(0xFFFF)),
            earlier(
                complaint_of(vars, names.1, Kind::Type),
                complaint_of(vars, names.2, Kind::Number),
            ),
        ),
        env_register_value(vars, names, default) matches Ok(r) ==> is_given_register(
            vars,
            names,
            default.address as nat,
            default.reg_type,
            default.scale,
            r,
        ),
{
    lemma_integer_fault(vars, names.0, default.address as nat, 0xFFFF);
    lemma_type_fault(vars, names.1, default.reg_type);
    lemma_number_fault(vars, names.2, default.scale);
}

proof fn lemma_host_fault(vars: Seq<(String, String)>, name: Seq<char>)
    ensures
        fault_of(required(vars, name)) == complaint_of(vars, name, Kind::Host),
{
    reveal(complaint_of);
}

proof fn lemma_setpoint_fault(vars: Seq<(String, String)>)
    ensures
        fault_of(setpoint_register(vars)) == earlier(
            complaint_of(vars, "SETPOINT_ADDR"@, Kind::Address),
            earlier(
                complaint_of(vars, "SETPOINT_TYPE"@, Kind::Type),
                complaint_of(vars, "SETPOINT_SCALE"@, Kind::Number),
            ),
        ),
        setpoint_register(vars) matches Ok(r) ==> (lookup(vars, "SETPOINT_ADDR"@) matches Some(v)
            && text::unsigned_integer(v, 0xFFFF) == Ok::<nat, IntegerError>(r.address as nat))
            && is_given_type(vars, "SETPOINT_TYPE"@, RegisterType::S32, r.reg_type)
            && is_given_number(vars, "SETPOINT_SCALE"@, arith::integer(1), r.scale),
{
    reveal(complaint_of);
    lemma_type_fault(vars, "SETPOINT_TYPE"@, RegisterType::S32);
    lemma_number_fault(vars, "SETPOINT_SCALE"@, arith::integer(1));
    if let Some(v) = lookup(vars, "SETPOINT_ADDR"@) {
        if let Ok(n) = text::unsigned_integer(v, 0xFFFF) {
            text::law_unsigned_integers(v, 0xFFFF, n);
        }
    }
}

/// The faults of the settings are those of the variables.
proof fn lemma_faults(vars: Seq<(String, String)>)
    ensures
        fault_of(settings(vars).e20_host) == complaint(vars, 0),
        fault_of(settings(vars).inverter_host) == complaint(vars, 1),
        fault_of(settings(vars).dry_run) == complaint(vars, 2),
        fault_of(settings(vars).setpoint_encoding) == complaint(vars, 6),
        fault_of(settings(vars).export_limit_w) == complaint(vars, 10),
        fault_of(settings(vars).telegram_staleness) == complaint(vars, 11),
        fault_of(settings(vars).reconnect_backoff_min) == complaint(vars, 12),
        fault_of(settings(vars).reconnect_backoff_max) == complaint(vars, 13),
        fault_of(settings(vars).e20_port) == complaint(vars, 14),
        fault_of(settings(vars).inverter_port) == complaint(vars, 15),
        fault_of(settings(vars).inverter_unit_id_ctrl) == complaint(vars, 16),
        fault_of(settings(vars).fallback_value_encoding) == complaint(vars, 27),
        fault_of(settings(vars).comm_control_activate_addr) == complaint(vars, 37),
        fault_of(settings(vars).comm_control_activate) == complaint(vars, 38),
        fault_of(settings(vars).selfcheck_enforce) == complaint(vars, 39),
        fault_of(settings(vars).write_when_not_producing) == complaint(vars, 40),
        fault_of(settings(vars).health_port) == complaint(vars, 41),
        fault_of(settings(vars).ac_power_reg) == earlier(
            complaint(vars, 3),
            earlier(complaint(vars, 4), complaint(vars, 5)),
        ),
        fault_of(settings(vars).setpoint_reg) == earlier(
            complaint(vars, 7),
            earlier(complaint(vars, 8), complaint(vars, 9)),
        ),
        fault_of(settings(vars).fallback_mode_reg) == earlier(
            complaint(vars, 18),
            earlier(complaint(vars, 19), complaint(vars, 20)),
        ),
        fault_of(settings(vars).fallback_timeout_reg) == earlier(
            complaint(vars, 21),
            earlier(complaint(vars, 22), complaint(vars, 23)),
        ),
        fault_of(settings(vars).fallback_value_reg) == earlier(
            complaint(vars, 24),
            earlier(complaint(vars, 25), complaint(vars, 26)),
        ),
        fault_of(settings(vars).inverter_wmax_reg) == earlier(
            complaint(vars, 28),
            earlier(complaint(vars, 29), complaint(vars, 30)),
        ),
        fault_of(settings(vars).operating_mode_reg) == earlier(
            complaint(vars, 31),
            earlier(complaint(vars, 32), complaint(vars, 33)),
        ),
        fault_of(settings(vars).current_limit_reg) == earlier(
            complaint(vars, 34),
            earlier(complaint(vars, 35), complaint(vars, 36)),
        ),
        settings(vars).export_limit_w is Ok ==> fault_of(settings(vars).fallback_max_w) == complaint(
            vars,
            17,
        ),
        settings(vars).export_limit_w is Err ==> settings(vars).fallback_max_w is Err,
{
    lemma_host_fault(vars, "E20_HOST"@);
    lemma_host_fault(vars, "INVERTER_HOST"@);
    lemma_integer_fault(vars, "E20_PORT"@, 23, 0xFFFF);
    lemma_integer_fault(vars, "INVERTER_PORT"@, 502, 0xFFFF);
    lemma_integer_fault(vars, "INVERTER_UNIT_ID_CTRL"@, 3, 0xFF);
    lemma_integer_fault(vars, "COMM_CONTROL_ACTIVATE_ADDR"@, 40151, 0xFFFF);
    lemma_integer_fault(vars, "TELEGRAM_STALENESS_MS"@, 3000, 0xFFFF_FFFF_FFFF_FFFF);
    lemma_integer_fault(vars, "RECONNECT_BACKOFF_MIN_MS"@, 500, 0xFFFF_FFFF_FFFF_FFFF);
    lemma_integer_fault(vars, "RECONNECT_BACKOFF_MAX_MS"@, 30000, 0xFFFF_FFFF_FFFF_FFFF);
    lemma_integer_fault(vars, "HEALTH_PORT"@, 8080, 0xFFFF);
    lemma_number_fault(vars, "EXPORT_LIMIT_W"@, arith::integer(2500));
    if let Ok(limit) = env_number_value(vars, "EXPORT_LIMIT_W"@, arith::integer(2500)) {
        lemma_number_fault(vars, "FALLBACK_MAX_W"@, limit);
    }
    lemma_switch_fault(vars, "DRY_RUN"@, true);
    lemma_switch_fault(vars, "COMM_CONTROL_ACTIVATE"@, true);
    lemma_switch_fault(vars, "SELFCHECK_ENFORCE"@, true);
    lemma_switch_fault(vars, "WRITE_WHEN_NOT_PRODUCING"@, false);
    lemma_encoding_fault(vars, "SETPOINT_ENCODING"@, SetpointEncoding::Percent);
    lemma_encoding_fault(vars, "FALLBACK_VALUE_ENCODING"@, SetpointEncoding::Percent);
    lemma_register_fault(
        vars,
        ("AC_POWER_ADDR"@, "AC_POWER_TYPE"@, "AC_POWER_SCALE"@),
        unscaled(30775, RegisterType::S32),
    );
    lemma_register_fault(
        vars,
        ("FALLBACK_MODE_ADDR"@, "FALLBACK_MODE_TYPE"@, "FALLBACK_MODE_SCALE"@),
        unscaled(41193, RegisterType::U32),
    );
    lemma_register_fault(
        vars,
        ("FALLBACK_TIMEOUT_ADDR"@, "FALLBACK_TIMEOUT_TYPE"@, "FALLBACK_TIMEOUT_SCALE"@),
        unscaled(41195, RegisterType::U32),
    );
    lemma_register_fault(
        vars,
        ("INVERTER_WMAX_ADDR"@, "INVERTER_WMAX_TYPE"@, "INVERTER_WMAX_SCALE"@),
        unscaled(30233, RegisterType::U32),
    );
    lemma_register_fault(
        vars,
        ("OPERATING_MODE_ADDR"@, "OPERATING_MODE_TYPE"@, "OPERATING_MODE_SCALE"@),
        unscaled(30835, RegisterType::U32),
    );
    lemma_register_fault(
        vars,
        ("CURRENT_LIMIT_ADDR"@, "CURRENT_LIMIT_TYPE"@, "CURRENT_LIMIT_SCALE"@),
        unscaled(31405, RegisterType::U32),
    );
    lemma_register_fault(
        vars,
        ("FALLBACK_VALUE_ADDR"@, "FALLBACK_VALUE_TYPE"@, "FALLBACK_VALUE_SCALE"@),
        RegisterSpec { address: 41197, reg_type: RegisterType::U32, scale: hundredth() },
    );
    lemma_setpoint_fault(vars);
}

/// The fault that is reported is that of the first variable at fault, in the
/// order of the variables, and there is one exactly if some variable is at fault.
pub proof fn law_first_fault(vars: Seq<(String, String)>, k: int)
    requires
        0 <= k <= variable_count(),
        forall|i: int| 0 <= i < k ==> (#[trigger] complaint(vars, i)) is None,
        k < variable_count() ==> complaint(vars, k) is Some,
    ensures
        settings(vars).first_fault() == if k < variable_count() {
            complaint(vars, k)
        } else {
            None
        },
{
    assert(0 < k ==> complaint(vars, 0) is None);
    assert(1 < k ==> complaint(vars, 1) is None);
    assert(2 < k ==> complaint(vars, 2) is None);
    assert(3 < k ==> complaint(vars, 3) is None);
    assert(4 < k ==> complaint(vars, 4) is None);
    assert(5 < k ==> complaint(vars, 5) is None);
    assert(6 < k ==> complaint(vars, 6) is None);
    assert(7 < k ==> complaint(vars, 7) is None);
    assert(8 < k ==> complaint(vars, 8) is None);
    assert(9 < k ==> complaint(vars, 9) is None);
    assert(10 < k ==> complaint(vars, 10) is None);
    assert(11 < k ==> complaint(vars, 11) is None);
    assert(12 < k ==> complaint(vars, 12) is None);
    assert(13 < k ==> complaint(vars, 13) is None);
    assert(14 < k ==> complaint(vars, 14) is None);
    assert(15 < k ==> complaint(vars, 15) is None);
    assert(16 < k ==> complaint(vars, 16) is None);
    assert(17 < k ==> complaint(vars, 17) is None);
    assert(18 < k ==> complaint(vars, 18) is None);
    assert(19 < k ==> complaint(vars, 19) is None);
    assert(20 < k ==> complaint(vars, 20) is None);
    assert(21 < k ==> complaint(vars, 21) is None);
    assert(22 < k ==> complaint(vars, 22) is None);
    assert(23 < k ==> complaint(vars, 23) is None);
    assert(24 < k ==> complaint(vars, 24) is None);
    assert(25 < k ==> complaint(vars, 25) is None);
    assert(26 < k ==> complaint(vars, 26) is None);
    assert(27 < k ==> complaint(vars, 27) is None);
    assert(28 < k ==> complaint(vars, 28) is None);
    assert(29 < k ==> complaint(vars, 29) is None);
    assert(30 < k ==> complaint(vars, 30) is None);
    assert(31 < k ==> complaint(vars, 31) is None);
    assert(32 < k ==> complaint(vars, 32) is None);
    assert(33 < k ==> complaint(vars, 33) is None);
    assert(34 < k ==> complaint(vars, 34) is None);
    assert(35 < k ==> complaint(vars, 35) is None);
    assert(36 < k ==> complaint(vars, 36) is None);
    assert(37 < k ==> complaint(vars, 37) is None);
    assert(38 < k ==> complaint(vars, 38) is None);
    assert(39 < k ==> complaint(vars, 39) is None);
    assert(40 < k ==> complaint(vars, 40) is None);
    assert(41 < k ==> complaint(vars, 41) is None);
    lemma_faults(vars);
}

/// Whether an integer is what its variable writes, or the default.
pub open spec fn is_given_integer(
    vars: Seq<(String, String)>,
    name: Seq<char>,
    default: nat,
    max: nat,
    n: nat,
) -> bool {
    match lookup(vars, name) {
        Some(v) => text::unsigned_integer(v, max) == Ok::<nat, IntegerError>(n),
        None => n == default,
    }
}

/// Whether a number is what its variable writes, or the default.
pub open spec fn is_given_number(
    vars: Seq<(String, String)>,
    name: Seq<char>,
    default: Binary64,
    x: Binary64,
) -> bool {
    match lookup(vars, name) {
        Some(v) => literal::parsed(v) == Ok::<Binary64, LiteralError>(x),
        None => x == default,
    }
}

/// Whether a switch is what its variable says, or the default.
pub open spec fn is_given_switch(
    vars: Seq<(String, String)>,
    name: Seq<char>,
    default: bool,
    on: bool,
) -> bool {
    match lookup(vars, name) {
        Some(v) => {
            let word = text::ascii_lowercase(v);
            if on {
                word == "1"@ || word == "true"@ || word == "yes"@ || word == "on"@
            } else {
                word == "0"@ || word == "false"@ || word == "no"@ || word == "off"@
            }
        },
        None => on == default,
    }
}

/// Whether an encoding is what its variable names, or the default.
pub open spec fn is_given_encoding(
    vars: Seq<(String, String)>,
    name: Seq<char>,
    default: SetpointEncoding,
    encoding: SetpointEncoding,
) -> bool {
    match lookup(vars, name) {
        Some(v) => {
            let word = text::ascii_uppercase(v);
            match encoding {
                SetpointEncoding::Watts => word == "W"@ || word == "WATTS"@,
                SetpointEncoding::Percent => word == "PCT"@ || word == "PERCENT"@ || word == "%"@,
            }
        },
        None => encoding == default,
    }
}

/// Whether a register type is what its variable names, or the default.
pub open spec fn is_given_type(
    vars: Seq<(String, String)>,
    name: Seq<char>,
    default: RegisterType,
    reg_type: RegisterType,
) -> bool {
    match lookup(vars, name) {
        Some(v) => text::ascii_uppercase(v) == (match reg_type {
            RegisterType::U16 => "U16"@,
            RegisterType::S16 => "S16"@,
            RegisterType::U32 => "U32"@,
            RegisterType::S32 => "S32"@,
        }),
        None => reg_type == default,
    }
}

/// Whether a register is what its three variables say, each by itself.
pub open spec fn is_given_register(
    vars: Seq<(String, String)>,
    names: (Seq<char>, Seq<char>, Seq<char>),
    address: nat,
    reg_type: RegisterType,
    scale: Binary64,
    register: RegisterSpec,
) -> bool {
    &&& is_given_integer(vars, names.0, address, 0xFFFF, register.address as nat)
    &&& is_given_type(vars, names.1, reg_type, register.reg_type)
    &&& is_given_number(vars, names.2, scale, register.scale)
}

/// Every setting of an accepted configuration is exactly what its own variable
/// writes, whatever the others are, and the default if that is not set. The one
/// default that depends on another setting is that of the highest fallback
/// power: it is the export limit.
pub proof fn law_settings_are_as_given(vars: Seq<(String, String)>, c: Config, one: Binary64)
    requires
        c.settings() == settings(vars),
        one == arith::integer(1),
    ensures
        lookup(vars, "E20_HOST"@) == Some(c.e20_host@),
        lookup(vars, "INVERTER_HOST"@) == Some(c.inverter_host@),
        is_given_integer(
            vars,
            "E20_PORT"@,
            23,
            0xFFFF,
            c.e20_port as nat,
        ),
        is_given_integer(
            vars,
            "INVERTER_PORT"@,
            502,
            0xFFFF,
            c.inverter_port as nat,
        ),
        is_given_integer(
            vars,
            "INVERTER_UNIT_ID_CTRL"@,
            3,
            0xFF,
            c.inverter_unit_id_ctrl as nat,
        ),
        is_given_integer(
            vars,
            "COMM_CONTROL_ACTIVATE_ADDR"@,
            40151,
            0xFFFF,
            c.comm_control_activate_addr as nat,
        ),
        is_given_integer(
            vars,
            "TELEGRAM_STALENESS_MS"@,
            3000,
            0xFFFF_FFFF_FFFF_FFFF,
            c.telegram_staleness as nat,
        ),
        is_given_integer(
            vars,
            "RECONNECT_BACKOFF_MIN_MS"@,
            500,
            0xFFFF_FFFF_FFFF_FFFF,
            c.reconnect_backoff_min as nat,
        ),
        is_given_integer(
            vars,
            "RECONNECT_BACKOFF_MAX_MS"@,
            30000,
            0xFFFF_FFFF_FFFF_FFFF,
            c.reconnect_backoff_max as nat,
        ),
        is_given_integer(
            vars,
            "HEALTH_PORT"@,
            8080,
            0xFFFF,
            c.health_port as nat,
        ),
        is_given_number(vars, "EXPORT_LIMIT_W"@, arith::integer(2500), c.export_limit_w),
        is_given_number(vars, "FALLBACK_MAX_W"@, c.export_limit_w, c.fallback_max_w),
        is_given_switch(vars, "DRY_RUN"@, true, c.dry_run),
        is_given_switch(vars, "COMM_CONTROL_ACTIVATE"@, true, c.comm_control_activate),
        is_given_switch(vars, "SELFCHECK_ENFORCE"@, true, c.selfcheck_enforce),
        is_given_switch(vars, "WRITE_WHEN_NOT_PRODUCING"@, false, c.write_when_not_producing),
        is_given_encoding(vars, "SETPOINT_ENCODING"@, SetpointEncoding::Percent, c.setpoint_encoding),
        is_given_encoding(vars, "FALLBACK_VALUE_ENCODING"@, SetpointEncoding::Percent, c.fallback_value_encoding),
        is_given_register(
            vars,
            ("AC_POWER_ADDR"@, "AC_POWER_TYPE"@, "AC_POWER_SCALE"@),
            30775,
            RegisterType::S32,
            one,
            c.ac_power_reg,
        ),
        is_given_register(
            vars,
            ("FALLBACK_MODE_ADDR"@, "FALLBACK_MODE_TYPE"@, "FALLBACK_MODE_SCALE"@),
            41193,
            RegisterType::U32,
            one,
            c.fallback_mode_reg,
        ),
        is_given_register(
            vars,
            ("FALLBACK_TIMEOUT_ADDR"@, "FALLBACK_TIMEOUT_TYPE"@, "FALLBACK_TIMEOUT_SCALE"@),
            41195,
            RegisterType::U32,
            one,
            c.fallback_timeout_reg,
        ),
        is_given_register(
            vars,
            ("INVERTER_WMAX_ADDR"@, "INVERTER_WMAX_TYPE"@, "INVERTER_WMAX_SCALE"@),
            30233,
            RegisterType::U32,
            one,
            c.inverter_wmax_reg,
        ),
        is_given_register(
            vars,
            ("OPERATING_MODE_ADDR"@, "OPERATING_MODE_TYPE"@, "OPERATING_MODE_SCALE"@),
            30835,
            RegisterType::U32,
            one,
            c.operating_mode_reg,
        ),
        is_given_register(
            vars,
            ("CURRENT_LIMIT_ADDR"@, "CURRENT_LIMIT_TYPE"@, "CURRENT_LIMIT_SCALE"@),
            31405,
            RegisterType::U32,
            one,
            c.current_limit_reg,
        ),
        is_given_integer(
            vars,
            "FALLBACK_VALUE_ADDR"@,
            41197,
            0xFFFF,
            c.fallback_value_reg.address as nat,
        ),
        is_given_type(
            vars,
            "FALLBACK_VALUE_TYPE"@,
            RegisterType::U32,
            c.fallback_value_reg.reg_type,
        ),
        lookup(vars, "FALLBACK_VALUE_SCALE"@) matches Some(v) ==> literal::parsed(v) == Ok::<
            Binary64,
            LiteralError,
        >(c.fallback_value_reg.scale),
        lookup(vars, "SETPOINT_ADDR"@) matches Some(v) && text::unsigned_integer(v, 0xFFFF)
            == Ok::<nat, IntegerError>(c.setpoint_reg.address as nat),
        is_given_type(vars, "SETPOINT_TYPE"@, RegisterType::S32, c.setpoint_reg.reg_type),
        is_given_number(vars, "SETPOINT_SCALE"@, one, c.setpoint_reg.scale),
        c.log_level@ == (match lookup(vars, "LOG_LEVEL"@) {
            Some(v) => v,
            None => "info"@,
        }),
        one.is_integer(1),
        lookup(vars, "FALLBACK_VALUE_SCALE"@) is None ==> closest::closest(
            c.fallback_value_reg.scale,
            pow2(1074) as int,
            100,
        ),
        lookup(vars, "EXPORT_LIMIT_W"@) is None ==> c.export_limit_w.is_integer(2500),
{
    lemma_integer_fault(vars, "E20_PORT"@, 23, 0xFFFF);
    lemma_integer_fault(vars, "INVERTER_PORT"@, 502, 0xFFFF);
    lemma_integer_fault(vars, "INVERTER_UNIT_ID_CTRL"@, 3, 0xFF);
    lemma_integer_fault(vars, "COMM_CONTROL_ACTIVATE_ADDR"@, 40151, 0xFFFF);
    lemma_integer_fault(vars, "TELEGRAM_STALENESS_MS"@, 3000, 0xFFFF_FFFF_FFFF_FFFF);
    lemma_integer_fault(vars, "RECONNECT_BACKOFF_MIN_MS"@, 500, 0xFFFF_FFFF_FFFF_FFFF);
    lemma_integer_fault(vars, "RECONNECT_BACKOFF_MAX_MS"@, 30000, 0xFFFF_FFFF_FFFF_FFFF);
    lemma_integer_fault(vars, "HEALTH_PORT"@, 8080, 0xFFFF);
    lemma_number_fault(vars, "EXPORT_LIMIT_W"@, arith::integer(2500));
    if let Ok(limit) = env_number_value(vars, "EXPORT_LIMIT_W"@, arith::integer(2500)) {
        lemma_number_fault(vars, "FALLBACK_MAX_W"@, limit);
    }
    lemma_switch_fault(vars, "DRY_RUN"@, true);
    lemma_switch_fault(vars, "COMM_CONTROL_ACTIVATE"@, true);
    lemma_switch_fault(vars, "SELFCHECK_ENFORCE"@, true);
    lemma_switch_fault(vars, "WRITE_WHEN_NOT_PRODUCING"@, false);
    lemma_encoding_fault(vars, "SETPOINT_ENCODING"@, SetpointEncoding::Percent);
    lemma_encoding_fault(vars, "FALLBACK_VALUE_ENCODING"@, SetpointEncoding::Percent);
    lemma_register_fault(
        vars,
        ("AC_POWER_ADDR"@, "AC_POWER_TYPE"@, "AC_POWER_SCALE"@),
        unscaled(30775, RegisterType::S32),
    );
    lemma_register_fault(
        vars,
        ("FALLBACK_MODE_ADDR"@, "FALLBACK_MODE_TYPE"@, "FALLBACK_MODE_SCALE"@),
        unscaled(41193, RegisterType::U32),
    );
    lemma_register_fault(
        vars,
        ("FALLBACK_TIMEOUT_ADDR"@, "FALLBACK_TIMEOUT_TYPE"@, "FALLBACK_TIMEOUT_SCALE"@),
        unscaled(41195, RegisterType::U32),
    );
    lemma_register_fault(
        vars,
        ("INVERTER_WMAX_ADDR"@, "INVERTER_WMAX_TYPE"@, "INVERTER_WMAX_SCALE"@),
        unscaled(30233, RegisterType::U32),
    );
    lemma_register_fault(
        vars,
        ("OPERATING_MODE_ADDR"@, "OPERATING_MODE_TYPE"@, "OPERATING_MODE_SCALE"@),
        unscaled(30835, RegisterType::U32),
    );
    lemma_register_fault(
        vars,
        ("CURRENT_LIMIT_ADDR"@, "CURRENT_LIMIT_TYPE"@, "CURRENT_LIMIT_SCALE"@),
        unscaled(31405, RegisterType::U32),
    );
    lemma_register_fault(
        vars,
        ("FALLBACK_VALUE_ADDR"@, "FALLBACK_VALUE_TYPE"@, "FALLBACK_VALUE_SCALE"@),
        RegisterSpec { address: 41197, reg_type: RegisterType::U32, scale: hundredth() },
    );
    lemma_setpoint_fault(vars);
    whole::lemma_integer(1);
    whole::lemma_integer(100);
    whole::lemma_integer(2500);
    let n = arith::integer(1);
    let d = arith::integer(100);
    let unit = pow2(1074) as int;
    lemma_pow2_pos(1074);
    assert(d.value() > 0) by (nonlinear_arith)
        requires
            d.value() == 100 * unit,
            unit > 0,
    ;
    closest::law_quotient_is_closest(n, d);
    assert(n.value() * unit == unit * unit && d.value() == 100 * unit) by (nonlinear_arith)
        requires
            n.value() == 1 * unit,
            d.value() == 100 * unit,
    ;
    closest::lemma_cancel_both(arith::quotient(n, d), unit, 100, unit);
}

/// The names of register types and encodings, in any case of letters.
pub proof fn law_names(s: Seq<char>)
    ensures
        register_type(s) == Ok::<RegisterType, Fault>(RegisterType::U16) <==> text::ascii_uppercase(
            s,
        ) == "U16"@,
        register_type(s) == Ok::<RegisterType, Fault>(RegisterType::S16) <==> text::ascii_uppercase(
            s,
        ) == "S16"@,
        register_type(s) == Ok::<RegisterType, Fault>(RegisterType::U32) <==> text::ascii_uppercase(
            s,
        ) == "U32"@,
        register_type(s) == Ok::<RegisterType, Fault>(RegisterType::S32) <==> text::ascii_uppercase(
            s,
        ) == "S32"@,
        register_type(s) matches Err(e) ==> e == Fault::Invalid(
            "unknown register type '"@ + text::ascii_uppercase(s) + "'"@,
        ),
        setpoint_encoding(s) == Ok::<SetpointEncoding, Fault>(SetpointEncoding::Watts)
            <==> text::ascii_uppercase(s) == "W"@ || text::ascii_uppercase(s) == "WATTS"@,
        setpoint_encoding(s) == Ok::<SetpointEncoding, Fault>(SetpointEncoding::Percent)
            <==> text::ascii_uppercase(s) == "PCT"@ || text::ascii_uppercase(s) == "PERCENT"@
            || text::ascii_uppercase(s) == "%"@,
        setpoint_encoding(s) matches Err(e) ==> e == Fault::Invalid(
            "unknown setpoint encoding '"@ + text::ascii_uppercase(s) + "'"@,
        ),
{
    reveal_strlit("U16");
    reveal_strlit("S16");
    reveal_strlit("U32");
    reveal_strlit("S32");
    reveal_strlit("W");
    reveal_strlit("WATTS");
    reveal_strlit("PCT");
    reveal_strlit("PERCENT");
    reveal_strlit("%");
    assert("U16"@[0] == 'U' && "U32"@[0] == 'U' && "S16"@[0] == 'S' && "S32"@[0] == 'S');
    assert("U16"@[1] == '1' && "U32"@[1] == '3' && "S16"@[1] == '1' && "S32"@[1] == '3');
    assert("W"@[0] == 'W' && "WATTS"@[0] == 'W' && "PCT"@[0] == 'P' && "PERCENT"@[0] == 'P'
        && "%"@[0] == '%');
}

/// How many words a register of each type takes.
pub proof fn law_words(reg_type: RegisterType)
    ensures
        16 * reg_type.words() == if reg_type is U16 || reg_type is S16 {
            16int
        } else {
            32
        },
{
}

/// The message of a fault names what is missing, or says what is wrong.
pub proof fn law_messages(name: Seq<char>)
    ensures
        fault_text(Fault::Missing(name)) == "missing required env var "@ + name,
        fault_text(Fault::Invalid(name)) == "invalid config: "@ + name,
{
}

/// The probe asks the port that is given, and the default if that is no port or
/// not set.
pub proof fn law_probe_port(vars: Seq<(String, String)>)
    ensures
        match lookup(vars, "HEALTH_PORT"@) {
            Some(v) => match text::unsigned_integer(v, 65_535) {
                Ok(port) => probe_port_value(vars) == port,
                Err(_) => probe_port_value(vars) == 8080,
            },
            None => probe_port_value(vars) == 8080,
        },
{
}

} // verus!
