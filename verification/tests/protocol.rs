//! The wire protocol, held against literal command and reply text.

use kel103::error::KelError;
use kel103::protocol::Quantity;
use kel103::protocol;
use kel103::Value;

#[test]
fn idn_query_is_exact() {
    assert_eq!(protocol::idn_query(), b"*IDN?".to_vec());
}

#[test]
fn measure_queries_are_exact() {
    assert_eq!(Quantity::Voltage.measure_query(), b":MEAS:VOLT?".to_vec());
    assert_eq!(Quantity::Power.measure_query(), b":MEAS:POW?".to_vec());
    assert_eq!(Quantity::Current.measure_query(), b":MEAS:CURR?".to_vec());
}

#[test]
fn setpoint_queries_are_exact() {
    assert_eq!(Quantity::Voltage.setpoint_query(), b":VOLT?".to_vec());
    assert_eq!(Quantity::Power.setpoint_query(), b":POW?".to_vec());
    assert_eq!(Quantity::Current.setpoint_query(), b":CURR?".to_vec());
}

#[test]
fn set_commands_are_exact() {
    assert_eq!(
        Quantity::Voltage.set_command(Value::from_milli(1500)),
        b":VOLT 1.500V".to_vec()
    );
    assert_eq!(
        Quantity::Power.set_command(Value::from_milli(250)),
        b":POW 0.250W".to_vec()
    );
    assert_eq!(
        Quantity::Current.set_command(Value::from_milli(-2000)),
        b":CURR -2.000A".to_vec()
    );
}

#[test]
fn output_commands_are_exact() {
    assert_eq!(protocol::output_query(), b":INP?".to_vec());
    assert_eq!(protocol::output_command(true), b":INP 1".to_vec());
    assert_eq!(protocol::output_command(false), b":INP 0".to_vec());
}

#[test]
fn function_commands_are_exact() {
    assert_eq!(protocol::constant_current_command(), b":FUNC CC".to_vec());
    assert_eq!(protocol::constant_power_command(), b":FUNC CW".to_vec());
    assert_eq!(protocol::constant_resistance_command(), b":FUNC CR".to_vec());
}

#[test]
fn dynamic_cv_command_is_exact() {
    let cmd = protocol::dynamic_cv_command(
        Value::from_milli(1000),
        Value::from_milli(2000),
        Value::from_milli(50_000),
        Value::from_milli(25_000),
    );
    assert_eq!(cmd, b":DYN 1,1.000V,2.000V,50.000HZ,25.000%".to_vec());
}

#[test]
fn dynamic_cc_command_is_exact() {
    let cmd = protocol::dynamic_cc_command(
        Value::from_milli(100),
        Value::from_milli(200),
        Value::from_milli(1000),
        Value::from_milli(2000),
        Value::from_milli(10_000),
        Value::from_milli(50_000),
    );
    assert_eq!(
        cmd,
        b":DYN 2,0.100A/uS,0.200A/uS,1.000A,2.000A,10.000HZ,50.000%".to_vec()
    );
}

#[test]
fn dynamic_query_is_exact() {
    assert_eq!(protocol::dynamic_query(), b":DYN?".to_vec());
}

#[test]
fn dynamic_reply_loses_only_trailing_line_feeds() {
    let reply = b"1,1.000V,2.000V,50.000HZ,25.000%\n\n".to_vec();
    assert_eq!(
        protocol::clean_dynamic_reply(&reply),
        b"1,1.000V,2.000V,50.000HZ,25.000%".to_vec()
    );
    let with_cr = b"text\r\n".to_vec();
    assert_eq!(protocol::clean_dynamic_reply(&with_cr), b"text\r".to_vec());
}

#[test]
fn measurement_reply_parses_after_stripping() {
    let reply = b"12.500V\r\n".to_vec();
    let v = protocol::parse_measurement(&reply, Quantity::Voltage).unwrap();
    assert_eq!(v.nanos, 12_500_000_000);
}

#[test]
fn measurement_reply_with_other_units() {
    let power = protocol::parse_measurement(&b"0.750W\n".to_vec(), Quantity::Power).unwrap();
    assert_eq!(power.nanos, 750_000_000);
    let current = protocol::parse_measurement(&b" 2.000A\r\n".to_vec(), Quantity::Current).unwrap();
    assert_eq!(current.nanos, 2_000_000_000);
}

#[test]
fn measurement_reply_that_is_not_numeric_fails() {
    let reply = b"HELLO\n".to_vec();
    match protocol::parse_measurement(&reply, Quantity::Voltage) {
        Err(KelError::ValueParsing(t)) => assert_eq!(t, b"HELLO".to_vec()),
        other => panic!("expected a value-parsing error, got {:?}", other),
    }
}

#[test]
fn measurement_reply_too_large_fails() {
    let reply = b"99999999999999999999V\n".to_vec();
    assert!(matches!(
        protocol::parse_measurement(&reply, Quantity::Voltage),
        Err(KelError::ValueParsing(_))
    ));
}

#[test]
fn echoed_setpoint_passes_verification() {
    let requested = Value::from_milli(1000);
    let reply = b"1.000V\n".to_vec();
    assert!(protocol::check_set_reply(requested, &reply, Quantity::Voltage).is_ok());
}

#[test]
fn mismatched_setpoint_reports_both_values() {
    let requested = Value::from_milli(1000);
    let reply = b"1.001V\n".to_vec();
    match protocol::check_set_reply(requested, &reply, Quantity::Voltage) {
        Err(KelError::ValueMismatch { expected, observed }) => {
            assert_eq!(expected.nanos, 1_000_000_000);
            assert_eq!(observed.nanos, 1_001_000_000);
        }
        other => panic!("expected a value mismatch, got {:?}", other),
    }
}

#[test]
fn setpoint_within_one_nano_is_accepted() {
    let requested = Value::from_nanos(1_000_000_000);
    assert!(protocol::verify_setpoint(requested, Value::from_nanos(1_000_000_001)).is_ok());
    assert!(protocol::verify_setpoint(requested, Value::from_nanos(999_999_999)).is_ok());
    assert!(matches!(
        protocol::verify_setpoint(requested, Value::from_nanos(1_000_000_002)),
        Err(KelError::ValueMismatch { .. })
    ));
}

#[test]
fn output_reply_classification() {
    assert_eq!(protocol::parse_output_reply(b"ON\n".to_vec()).unwrap(), true);
    assert_eq!(protocol::parse_output_reply(b"OFF\n".to_vec()).unwrap(), false);
    match protocol::parse_output_reply(b"UNKNOWN\n".to_vec()) {
        Err(KelError::DeviceProtocol(t)) => assert_eq!(t, b"UNKNOWN\n".to_vec()),
        other => panic!("expected a device-protocol error, got {:?}", other),
    }
}

#[test]
fn output_reply_with_both_tokens_reads_off() {
    assert_eq!(protocol::parse_output_reply(b"ONOFF\n".to_vec()).unwrap(), false);
}

#[test]
fn output_verification() {
    assert!(protocol::verify_output(true, true).is_ok());
    assert!(protocol::verify_output(false, false).is_ok());
    match protocol::verify_output(true, false) {
        Err(KelError::OutputMismatch { expected_state, observed_state }) => {
            assert!(expected_state);
            assert!(!observed_state);
        }
        other => panic!("expected an output mismatch, got {:?}", other),
    }
}

#[test]
fn identification_accepts_the_expected_model() {
    assert!(protocol::check_identification(b"KEL103,FW1.2\n".to_vec()).is_ok());
}

#[test]
fn identification_rejects_another_model() {
    match protocol::check_identification(b"OTHERMODEL,1.0\n".to_vec()) {
        Err(KelError::DeviceModelMismatch(t)) => assert_eq!(t, b"OTHERMODEL,1.0\n".to_vec()),
        other => panic!("expected a model mismatch, got {:?}", other),
    }
}
