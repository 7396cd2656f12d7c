//! The command/response protocol: the exact line sent for each operation,
//! and what each reply means.
//!
//! Commands are ASCII lines without their newline terminator; the caller
//! owns the transport, sends one line per call, and hands the single reply
//! line back to the parsing functions here.

use crate::ascii;
use crate::decimal::{format_nanos, parse_decimal, spec_format_value, spec_parse_decimal};
use crate::error::KelError;
use crate::text::{clean_reply, contains_token, spec_clean, spec_contains, strip_newlines};
use crate::Value;
use vstd::prelude::*;

verus! {

/// A measurable quantity of the load, with its unit letter on the wire.
#[derive(Clone, Copy, Debug, PartialEq, Eq, Structural)]
pub enum Quantity {
    /// Volts (`V`).
    Voltage,
    /// Watts (`W`).
    Power,
    /// Amperes (`A`).
    Current,
}

impl Quantity {
    /// The unit letter the instrument appends to values of this quantity.
    pub open spec fn spec_unit(self) -> u8 {
        match self {
            Quantity::Voltage => ascii::V,
            Quantity::Power => ascii::W,
            Quantity::Current => ascii::A,
        }
    }

    /// The query line for a live measurement of this quantity.
    pub open spec fn spec_measure_query(self) -> Seq<u8> {
        match self {
            Quantity::Voltage => seq![
                ascii::COLON,
                ascii::M,
                ascii::E,
                ascii::A,
                ascii::S,
                ascii::COLON,
                ascii::V,
                ascii::O,
                ascii::L,
                ascii::T,
                ascii::QMARK,
            ],
            Quantity::Power => seq![
                ascii::COLON,
                ascii::M,
                ascii::E,
                ascii::A,
                ascii::S,
                ascii::COLON,
                ascii::P,
                ascii::O,
                ascii::W,
                ascii::QMARK,
            ],
            Quantity::Current => seq![
                ascii::COLON,
                ascii::M,
                ascii::E,
                ascii::A,
                ascii::S,
                ascii::COLON,
                ascii::C,
                ascii::U,
                ascii::R,
                ascii::R,
                ascii::QMARK,
            ],
        }
    }

    /// The query line for the stored set value of this quantity.
    pub open spec fn spec_setpoint_query(self) -> Seq<u8> {
        match self {
            Quantity::Voltage => seq![
                ascii::COLON,
                ascii::V,
                ascii::O,
                ascii::L,
                ascii::T,
                ascii::QMARK,
            ],
            Quantity::Power => seq![ascii::COLON, ascii::P, ascii::O, ascii::W, ascii::QMARK],
            Quantity::Current => seq![
                ascii::COLON,
                ascii::C,
                ascii::U,
                ascii::R,
                ascii::R,
                ascii::QMARK,
            ],
        }
    }

    /// What a set command for this quantity opens with.
    pub open spec fn spec_set_prefix(self) -> Seq<u8> {
        match self {
            Quantity::Voltage => seq![
                ascii::COLON,
                ascii::V,
                ascii::O,
                ascii::L,
                ascii::T,
                ascii::SPACE,
            ],
            Quantity::Power => seq![ascii::COLON, ascii::P, ascii::O, ascii::W, ascii::SPACE],
            Quantity::Current => seq![
                ascii::COLON,
                ascii::C,
                ascii::U,
                ascii::R,
                ascii::R,
                ascii::SPACE,
            ],
        }
    }

    /// The full set command: prefix, the value to three decimals, and the
    /// unit letter.
    pub open spec fn spec_set_command(self, n: int) -> Seq<u8> {
        self.spec_set_prefix() + spec_format_value(n) + seq![self.spec_unit()]
    }

    /// The unit letter, executable.
    pub fn unit(&self) -> (r: u8)
        ensures
            r == self.spec_unit(),
    {
        match self {
            Quantity::Voltage => ascii::V,
            Quantity::Power => ascii::W,
            Quantity::Current => ascii::A,
        }
    }

    /// Build the live-measurement query line.
    pub fn measure_query(&self) -> (r: Vec<u8>)
        ensures
            r@ == self.spec_measure_query(),
    {
        let mut v: Vec<u8> = Vec::new();
        v.push(ascii::COLON);
        v.push(ascii::M);
        v.push(ascii::E);
        v.push(ascii::A);
        v.push(ascii::S);
        v.push(ascii::COLON);
        match self {
            Quantity::Voltage => {
                v.push(ascii::V);
                v.push(ascii::O);
                v.push(ascii::L);
                v.push(ascii::T);
            },
            Quantity::Power => {
                v.push(ascii::P);
                v.push(ascii::O);
                v.push(ascii::W);
            },
            Quantity::Current => {
                v.push(ascii::C);
                v.push(ascii::U);
                v.push(ascii::R);
                v.push(ascii::R);
            },
        }
        v.push(ascii::QMARK);
        proof {
            assert(v@ =~= self.spec_measure_query());
        }
        v
    }

    /// Build the stored-set-value query line.
    pub fn setpoint_query(&self) -> (r: Vec<u8>)
        ensures
            r@ == self.spec_setpoint_query(),
    {
        let mut v: Vec<u8> = Vec::new();
        v.push(ascii::COLON);
        match self {
            Quantity::Voltage => {
                v.push(ascii::V);
                v.push(ascii::O);
                v.push(ascii::L);
                v.push(ascii::T);
            },
            Quantity::Power => {
                v.push(ascii::P);
                v.push(ascii::O);
                v.push(ascii::W);
            },
            Quantity::Current => {
                v.push(ascii::C);
                v.push(ascii::U);
                v.push(ascii::R);
                v.push(ascii::R);
            },
        }
        v.push(ascii::QMARK);
        proof {
            assert(v@ =~= self.spec_setpoint_query());
        }
        v
    }

    /// Build the set command for a requested value.
    pub fn set_command(&self, requested: Value) -> (r: Vec<u8>)
        ensures
            r@ == self.spec_set_command(requested@),
    {
        let mut v: Vec<u8> = Vec::new();
        v.push(ascii::COLON);
        match self {
            Quantity::Voltage => {
                v.push(ascii::V);
                v.push(ascii::O);
                v.push(ascii::L);
                v.push(ascii::T);
            },
            Quantity::Power => {
                v.push(ascii::P);
                v.push(ascii::O);
                v.push(ascii::W);
            },
            Quantity::Current => {
                v.push(ascii::C);
                v.push(ascii::U);
                v.push(ascii::R);
                v.push(ascii::R);
            },
        }
        v.push(ascii::SPACE);
        proof {
            assert(v@ =~= self.spec_set_prefix());
        }
        let mut num = format_nanos(requested.nanos);
        v.append(&mut num);
        v.push(self.unit());
        proof {
            assert(v@ =~= self.spec_set_command(requested@));
        }
        v
    }
}

/// The identification query line.
pub open spec fn spec_idn_query() -> Seq<u8> {
    seq![ascii::STAR, ascii::I, ascii::D, ascii::N, ascii::QMARK]
}

/// The token the identification reply must hold.
pub open spec fn spec_model_token() -> Seq<u8> {
    seq![ascii::K, ascii::E, ascii::L, ascii::D1, ascii::D0, ascii::D3]
}

/// The input-switch query line.
pub open spec fn spec_output_query() -> Seq<u8> {
    seq![ascii::COLON, ascii::I, ascii::N, ascii::P, ascii::QMARK]
}

/// The input-switch set command.
pub open spec fn spec_output_command(state: bool) -> Seq<u8> {
    seq![
        ascii::COLON,
        ascii::I,
        ascii::N,
        ascii::P,
        ascii::SPACE,
        if state {
            ascii::D1
        } else {
            ascii::D0
        },
    ]
}

/// The regulation-mode command: `:FUNC ` and the mode's two letters.
pub open spec fn spec_function_command(second: u8) -> Seq<u8> {
    seq![
        ascii::COLON,
        ascii::F,
        ascii::U,
        ascii::N,
        ascii::C,
        ascii::SPACE,
        ascii::C,
        second,
    ]
}

/// The dynamic-profile query line.
pub open spec fn spec_dynamic_query() -> Seq<u8> {
    seq![ascii::COLON, ascii::D, ascii::Y, ascii::N, ascii::QMARK]
}

/// The constant-voltage dynamic profile command: discriminator `1`, two
/// voltages, frequency and duty cycle, each to three decimals with its
/// unit, comma-separated.
pub open spec fn spec_dynamic_cv_command(v1: int, v2: int, freq: int, duty: int) -> Seq<u8> {
    seq![ascii::COLON, ascii::D, ascii::Y, ascii::N, ascii::SPACE, ascii::D1, ascii::COMMA]
        + spec_format_value(v1) + seq![ascii::V, ascii::COMMA] + spec_format_value(v2)
        + seq![ascii::V, ascii::COMMA] + spec_format_value(freq)
        + seq![ascii::H, ascii::Z, ascii::COMMA] + spec_format_value(duty) + seq![ascii::PERCENT]
}

/// The constant-current dynamic profile command: discriminator `2`, two
/// current slopes, two currents, frequency and duty cycle, each to three
/// decimals with its unit, comma-separated.
pub open spec fn spec_dynamic_cc_command(
    s1: int,
    s2: int,
    c1: int,
    c2: int,
    freq: int,
    duty: int,
) -> Seq<u8> {
    seq![ascii::COLON, ascii::D, ascii::Y, ascii::N, ascii::SPACE, ascii::D2, ascii::COMMA]
        + spec_format_value(s1) + seq![ascii::A, ascii::SLASH, ascii::LOW_U, ascii::S, ascii::COMMA]
        + spec_format_value(s2) + seq![ascii::A, ascii::SLASH, ascii::LOW_U, ascii::S, ascii::COMMA]
        + spec_format_value(c1) + seq![ascii::A, ascii::COMMA] + spec_format_value(c2)
        + seq![ascii::A, ascii::COMMA] + spec_format_value(freq)
        + seq![ascii::H, ascii::Z, ascii::COMMA] + spec_format_value(duty) + seq![ascii::PERCENT]
}

/// Build the identification query line.
pub fn idn_query() -> (r: Vec<u8>)
    ensures
        r@ == spec_idn_query(),
{
    let mut v: Vec<u8> = Vec::new();
    v.push(ascii::STAR);
    v.push(ascii::I);
    v.push(ascii::D);
    v.push(ascii::N);
    v.push(ascii::QMARK);
    proof {
        assert(v@ =~= spec_idn_query());
    }
    v
}

/// Build the input-switch query line.
pub fn output_query() -> (r: Vec<u8>)
    ensures
        r@ == spec_output_query(),
{
    let mut v: Vec<u8> = Vec::new();
    v.push(ascii::COLON);
    v.push(ascii::I);
    v.push(ascii::N);
    v.push(ascii::P);
    v.push(ascii::QMARK);
    proof {
        assert(v@ =~= spec_output_query());
    }
    v
}

/// Build the input-switch set command for the requested state.
pub fn output_command(state: bool) -> (r: Vec<u8>)
    ensures
        r@ == spec_output_command(state),
{
    let mut v: Vec<u8> = Vec::new();
    v.push(ascii::COLON);
    v.push(ascii::I);
    v.push(ascii::N);
    v.push(ascii::P);
    v.push(ascii::SPACE);
    if state {
        v.push(ascii::D1);
    } else {
        v.push(ascii::D0);
    }
    proof {
        assert(v@ =~= spec_output_command(state));
    }
    v
}

/// Build the constant-current mode command.
pub fn constant_current_command() -> (r: Vec<u8>)
    ensures
        r@ == spec_function_command(ascii::C),
{
    function_command(ascii::C)
}

/// Build the constant-power mode command.
pub fn constant_power_command() -> (r: Vec<u8>)
    ensures
        r@ == spec_function_command(ascii::W),
{
    function_command(ascii::W)
}

/// Build the constant-resistance mode command.
pub fn constant_resistance_command() -> (r: Vec<u8>)
    ensures
        r@ == spec_function_command(ascii::R),
{
    function_command(ascii::R)
}

fn function_command(second: u8) -> (r: Vec<u8>)
    ensures
        r@ == spec_function_command(second),
{
    let mut v: Vec<u8> = Vec::new();
    v.push(ascii::COLON);
    v.push(ascii::F);
    v.push(ascii::U);
    v.push(ascii::N);
    v.push(ascii::C);
    v.push(ascii::SPACE);
    v.push(ascii::C);
    v.push(second);
    proof {
        assert(v@ =~= spec_function_command(second));
    }
    v
}

/// Build the dynamic-profile query line.
pub fn dynamic_query() -> (r: Vec<u8>)
    ensures
        r@ == spec_dynamic_query(),
{
    let mut v: Vec<u8> = Vec::new();
    v.push(ascii::COLON);
    v.push(ascii::D);
    v.push(ascii::Y);
    v.push(ascii::N);
    v.push(ascii::QMARK);
    proof {
        assert(v@ =~= spec_dynamic_query());
    }
    v
}

/// Build the constant-voltage dynamic profile command.
#[verifier::rlimit(100)]
pub fn dynamic_cv_command(v1: Value, v2: Value, freq: Value, duty: Value) -> (r: Vec<u8>)
    ensures
        r@ == spec_dynamic_cv_command(v1@, v2@, freq@, duty@),
{
    let mut v: Vec<u8> = Vec::new();
    v.push(ascii::COLON);
    v.push(ascii::D);
    v.push(ascii::Y);
    v.push(ascii::N);
    v.push(ascii::SPACE);
    v.push(ascii::D1);
    v.push(ascii::COMMA);
    let mut n1 = format_nanos(v1.nanos);
    v.append(&mut n1);
    v.push(ascii::V);
    v.push(ascii::COMMA);
    let mut n2 = format_nanos(v2.nanos);
    v.append(&mut n2);
    v.push(ascii::V);
    v.push(ascii::COMMA);
    let mut n3 = format_nanos(freq.nanos);
    v.append(&mut n3);
    v.push(ascii::H);
    v.push(ascii::Z);
    v.push(ascii::COMMA);
    let mut n4 = format_nanos(duty.nanos);
    v.append(&mut n4);
    v.push(ascii::PERCENT);
    proof {
        assert(v@ =~= spec_dynamic_cv_command(v1@, v2@, freq@, duty@));
    }
    v
}

/// Build the constant-current dynamic profile command.
#[verifier::rlimit(100)]
pub fn dynamic_cc_command(
    s1: Value,
    s2: Value,
    c1: Value,
    c2: Value,
    freq: Value,
    duty: Value,
) -> (r: Vec<u8>)
    ensures
        r@ == spec_dynamic_cc_command(s1@, s2@, c1@, c2@, freq@, duty@),
{
    let mut v: Vec<u8> = Vec::new();
    v.push(ascii::COLON);
    v.push(ascii::D);
    v.push(ascii::Y);
    v.push(ascii::N);
    v.push(ascii::SPACE);
    v.push(ascii::D2);
    v.push(ascii::COMMA);
    let mut n1 = format_nanos(s1.nanos);
    v.append(&mut n1);
    v.push(ascii::A);
    v.push(ascii::SLASH);
    v.push(ascii::LOW_U);
    v.push(ascii::S);
    v.push(ascii::COMMA);
    let mut n2 = format_nanos(s2.nanos);
    v.append(&mut n2);
    v.push(ascii::A);
    v.push(ascii::SLASH);
    v.push(ascii::LOW_U);
    v.push(ascii::S);
    v.push(ascii::COMMA);
    let mut n3 = format_nanos(c1.nanos);
    v.append(&mut n3);
    v.push(ascii::A);
    v.push(ascii::COMMA);
    let mut n4 = format_nanos(c2.nanos);
    v.append(&mut n4);
    v.push(ascii::A);
    v.push(ascii::COMMA);
    let mut n5 = format_nanos(freq.nanos);
    v.append(&mut n5);
    v.push(ascii::H);
    v.push(ascii::Z);
    v.push(ascii::COMMA);
    let mut n6 = format_nanos(duty.nanos);
    v.append(&mut n6);
    v.push(ascii::PERCENT);
    proof {
        assert(v@ =~= spec_dynamic_cc_command(s1@, s2@, c1@, c2@, freq@, duty@));
    }
    v
}

// ---------------------------------------------------------------------------
// Reply handling.
// ---------------------------------------------------------------------------
/// What a measurement reply denotes once cleaned: a count of nanos, or
/// nothing where the residue is not a decimal number.
pub open spec fn spec_measurement(reply: Seq<u8>, unit: u8) -> Option<int> {
    spec_parse_decimal(spec_clean(reply, unit))
}

/// Parse a measurement reply: strip the quantity's unit letter and line
/// ends, trim whitespace, and read the residue as a decimal number.
pub fn parse_measurement(reply: &Vec<u8>, q: Quantity) -> (r: Result<Value, KelError>)
    ensures
        (match r {
            Ok(v) => spec_measurement(reply@, q.spec_unit()) == Some(v@),
            Err(KelError::ValueParsing(t)) => {
                &&& t@ == spec_clean(reply@, q.spec_unit())
                &&& (match spec_measurement(reply@, q.spec_unit()) {
                    Some(n) => n > i64::MAX || n < -(i64::MAX as int),
                    None => true,
                })
            },
            Err(_) => false,
        }),
{
    let cleaned = clean_reply(reply, q.unit());
    match parse_decimal(&cleaned) {
        Some(n) => Ok(Value { nanos: n }),
        None => Err(KelError::ValueParsing(cleaned)),
    }
}

/// Compare a read-back setting against the requested value, within the
/// protocol's absolute tolerance of 1e-9 (one nano).
pub fn verify_setpoint(requested: Value, observed: Value) -> (r: Result<(), KelError>)
    ensures
        (match r {
            Ok(_) => -1 <= requested@ - observed@ <= 1,
            Err(KelError::ValueMismatch { expected, observed: o }) => {
                &&& expected == requested
                &&& o == observed
                &&& (requested@ - observed@ > 1 || requested@ - observed@ < -1)
            },
            Err(_) => false,
        }),
{
    let d: i128 = requested.nanos as i128 - observed.nanos as i128;
    if -1 <= d && d <= 1 {
        Ok(())
    } else {
        Err(KelError::ValueMismatch { expected: requested, observed })
    }
}

/// Judge the read-back reply of a set operation: parse the measurement and
/// hold it against the requested value within tolerance.
pub fn check_set_reply(requested: Value, reply: &Vec<u8>, q: Quantity) -> (r: Result<
    (),
    KelError,
>)
    ensures
        (match r {
            Ok(_) => (match spec_measurement(reply@, q.spec_unit()) {
                Some(n) => -1 <= requested@ - n <= 1,
                None => false,
            }),
            Err(KelError::ValueParsing(t)) => {
                &&& t@ == spec_clean(reply@, q.spec_unit())
                &&& (match spec_measurement(reply@, q.spec_unit()) {
                    Some(n) => n > i64::MAX || n < -(i64::MAX as int),
                    None => true,
                })
            },
            Err(KelError::ValueMismatch { expected, observed }) => {
                &&& expected == requested
                &&& spec_measurement(reply@, q.spec_unit()) == Some(observed@)
                &&& (requested@ - observed@ > 1 || requested@ - observed@ < -1)
            },
            Err(_) => false,
        }),
{
    let observed = parse_measurement(reply, q)?;
    verify_setpoint(requested, observed)
}

/// What an input-switch reply means: `OFF` anywhere wins, then `ON`;
/// neither token is a protocol error.
pub open spec fn spec_output_state(s: Seq<u8>) -> Option<bool> {
    if spec_contains(s, spec_off_token()) {
        Some(false)
    } else if spec_contains(s, spec_on_token()) {
        Some(true)
    } else {
        None
    }
}

/// The token `ON`.
pub open spec fn spec_on_token() -> Seq<u8> {
    seq![ascii::O, ascii::N]
}

/// The token `OFF`.
pub open spec fn spec_off_token() -> Seq<u8> {
    seq![ascii::O, ascii::F, ascii::F]
}

/// Build the token `ON`.
pub fn on_token() -> (r: Vec<u8>)
    ensures
        r@ == spec_on_token(),
{
    let mut v: Vec<u8> = Vec::new();
    v.push(ascii::O);
    v.push(ascii::N);
    proof {
        assert(v@ =~= spec_on_token());
    }
    v
}

/// Build the token `OFF`.
pub fn off_token() -> (r: Vec<u8>)
    ensures
        r@ == spec_off_token(),
{
    let mut v: Vec<u8> = Vec::new();
    v.push(ascii::O);
    v.push(ascii::F);
    v.push(ascii::F);
    proof {
        assert(v@ =~= spec_off_token());
    }
    v
}

/// Read the input-switch state out of a reply.
pub fn parse_output_reply(reply: Vec<u8>) -> (r: Result<bool, KelError>)
    ensures
        (match r {
            Ok(b) => spec_output_state(reply@) == Some(b),
            Err(KelError::DeviceProtocol(t)) => t@ == reply@ && spec_output_state(reply@) is None,
            Err(_) => false,
        }),
{
    let off = off_token();
    let on = on_token();
    if contains_token(&reply, &off) {
        Ok(false)
    } else if contains_token(&reply, &on) {
        Ok(true)
    } else {
        Err(KelError::DeviceProtocol(reply))
    }
}

/// Compare a read-back input-switch state against the requested one.
pub fn verify_output(requested: bool, observed: bool) -> (r: Result<(), KelError>)
    ensures
        (match r {
            Ok(_) => requested == observed,
            Err(KelError::OutputMismatch { expected_state, observed_state }) => {
                &&& expected_state == requested
                &&& observed_state == observed
                &&& requested != observed
            },
            Err(_) => false,
        }),
{
    if requested == observed {
        Ok(())
    } else {
        Err(KelError::OutputMismatch { expected_state: requested, observed_state: observed })
    }
}

/// Hold an identification reply to the expected model: it must name the
/// model token somewhere.
pub fn check_identification(reply: Vec<u8>) -> (r: Result<(), KelError>)
    ensures
        (match r {
            Ok(_) => spec_contains(reply@, spec_model_token()),
            Err(KelError::DeviceModelMismatch(t)) => t@ == reply@ && !spec_contains(
                reply@,
                spec_model_token(),
            ),
            Err(_) => false,
        }),
{
    let mut token: Vec<u8> = Vec::new();
    token.push(ascii::K);
    token.push(ascii::E);
    token.push(ascii::L);
    token.push(ascii::D1);
    token.push(ascii::D0);
    token.push(ascii::D3);
    proof {
        assert(token@ =~= spec_model_token());
    }
    if contains_token(&reply, &token) {
        Ok(())
    } else {
        Err(KelError::DeviceModelMismatch(reply))
    }
}

/// Clean a dynamic-profile reply: only trailing line feeds go; the profile
/// text itself is passed through unparsed.
pub fn clean_dynamic_reply(reply: &Vec<u8>) -> (r: Vec<u8>)
    ensures
        r@ == crate::text::spec_strip_newlines(reply@),
{
    strip_newlines(reply)
}

} // verus!
