use dlt_grep::{
    civil_from_days, format_message, format_message_type, format_payload, format_value,
    write_monotonic_timestamp, write_storage_timestamp, ControlType, DltTimeStamp,
    ExtendedHeader, LogLevel, Message, MessageType, PayloadContent, StandardHeader,
    StorageHeader, TimestampKey, Value,
};

fn message(monotonic_ticks: u32, storage_seconds: u32, msg_id: u32) -> Message {
    Message {
        storage_header: Some(StorageHeader {
            timestamp: DltTimeStamp {
                seconds: storage_seconds,
                microseconds: 123_456,
            },
            ecu_id: "ECU".to_string(),
        }),
        header: StandardHeader {
            ecu_id: Some("ECU".to_string()),
            timestamp: Some(monotonic_ticks),
        },
        extended_header: None,
        payload: PayloadContent::NonVerbose(msg_id, Vec::new()),
    }
}

#[test]
fn format_message_prints_monotonic_then_iso_storage_timestamp() {
    let line = format_message(&message(12_345, 1_000, 7));

    assert!(line.starts_with("1.234500 1970-01-01T00:16:40.123456Z ECU  "));
    assert!(line.ends_with("[non-verbose id=7]"));
}

#[test]
fn format_message_full_line_without_storage_header() {
    let msg = Message {
        storage_header: None,
        header: StandardHeader {
            ecu_id: None,
            timestamp: None,
        },
        extended_header: Some(ExtendedHeader {
            application_id: "APP".to_string(),
            context_id: "CONTEXT".to_string(),
            message_type: MessageType::Log(LogLevel::Warn),
        }),
        payload: PayloadContent::Verbose(vec![
            Value::StringVal("hello".to_string()),
            Value::I32(-42),
            Value::Bool(1),
        ]),
    };
    assert_eq!(
        format_message(&msg),
        "-.------ --------------------------- ---- APP  CONTEXT warn    hello -42 true"
    );
}

#[test]
fn format_message_uses_standard_header_ecu_when_no_storage_header() {
    let msg = Message {
        storage_header: None,
        header: StandardHeader {
            ecu_id: Some("E1".to_string()),
            timestamp: Some(1),
        },
        extended_header: None,
        payload: PayloadContent::NonVerbose(3, vec![0x0a, 0xff]),
    };
    assert_eq!(
        format_message(&msg),
        "0.000100 --------------------------- E1   ---- ---- --- [non-verbose id=3] 0a ff"
    );
}

#[test]
fn monotonic_timestamp_ticks_are_tenths_of_milliseconds() {
    let key = TimestampKey::from_monotonic(123_456_789);
    assert_eq!(key.seconds, 12_345);
    assert_eq!(key.microseconds, 678_900);
    let max = TimestampKey::from_monotonic(u32::MAX);
    assert_eq!(max.seconds, 429_496);
    assert_eq!(max.microseconds, 729_500);
}

#[test]
fn storage_timestamp_from_header_keeps_fields() {
    let key = TimestampKey::from_storage(&DltTimeStamp {
        seconds: 40,
        microseconds: 7,
    });
    assert_eq!(key, TimestampKey { seconds: 40, microseconds: 7 });
}

#[test]
fn monotonic_field_renders_six_microsecond_digits() {
    let mut out = String::new();
    write_monotonic_timestamp(&mut out, Some(TimestampKey { seconds: 3, microseconds: 45 }));
    assert_eq!(out, "3.000045 ");
    write_monotonic_timestamp(&mut out, None);
    assert_eq!(out, "3.000045 -.------ ");
}

#[test]
fn storage_field_renders_iso_date_time() {
    let mut out = String::new();
    write_storage_timestamp(
        &mut out,
        Some(TimestampKey { seconds: 951_782_400 + 3_723, microseconds: 9 }),
    );
    assert_eq!(out, "2000-02-29T01:02:03.000009Z ");
    let mut none = String::new();
    write_storage_timestamp(&mut none, None);
    assert_eq!(none, "--------------------------- ");
}

#[test]
fn civil_from_days_known_dates() {
    assert_eq!(civil_from_days(0), (1970, 1, 1));
    assert_eq!(civil_from_days(-1), (1969, 12, 31));
    assert_eq!(civil_from_days(11_016), (2000, 2, 29));
    assert_eq!(civil_from_days(10_957), (2000, 1, 1));
    assert_eq!(civil_from_days(19_723), (2024, 1, 1));
    assert_eq!(civil_from_days(49_710), (2106, 2, 7));
    assert_eq!(civil_from_days(-719_468), (0, 3, 1));
    assert_eq!(civil_from_days(47_482), (2100, 1, 1));
    assert_eq!(civil_from_days(47_541), (2100, 3, 1));
}

#[test]
fn civil_from_days_follows_every_day_of_four_centuries() {
    let mut expected = (1970i32, 1u32, 1u32);
    for days in 0..146_097i64 {
        assert_eq!(civil_from_days(days), expected);
        let (y, m, d) = expected;
        let leap = y % 4 == 0 && (y % 100 != 0 || y % 400 == 0);
        let len = match m {
            2 => {
                if leap {
                    29
                } else {
                    28
                }
            }
            4 | 6 | 9 | 11 => 30,
            _ => 31,
        };
        expected = if d < len {
            (y, m, d + 1)
        } else if m < 12 {
            (y, m + 1, 1)
        } else {
            (y + 1, 1, 1)
        };
    }
}

#[test]
fn message_type_names() {
    assert_eq!(format_message_type(&MessageType::Log(LogLevel::Fatal)), "fatal  ");
    assert_eq!(format_message_type(&MessageType::Log(LogLevel::Verbose)), "verbose");
    assert_eq!(format_message_type(&MessageType::Log(LogLevel::Invalid(9))), "log?   ");
    assert_eq!(format_message_type(&MessageType::ApplicationTrace), "apptrace");
    assert_eq!(format_message_type(&MessageType::NetworkTrace), "nettrace");
    assert_eq!(
        format_message_type(&MessageType::Control(ControlType::Request)),
        "control "
    );
    assert_eq!(format_message_type(&MessageType::Unknown), "unknown ");
}

#[test]
fn values_render_as_rust_displays_them() {
    assert_eq!(format_value(&Value::Bool(0)), "false");
    assert_eq!(format_value(&Value::Bool(2)), "true");
    assert_eq!(format_value(&Value::U8(0)), "0");
    assert_eq!(format_value(&Value::U64(u64::MAX)), u64::MAX.to_string());
    assert_eq!(format_value(&Value::U128(u128::MAX)), u128::MAX.to_string());
    assert_eq!(format_value(&Value::I8(i8::MIN)), "-128");
    assert_eq!(format_value(&Value::I128(i128::MIN)), i128::MIN.to_string());
    assert_eq!(format_value(&Value::I16(1234)), "1234");
    assert_eq!(format_value(&Value::F64(1.5f64.to_string())), "1.5");
    assert_eq!(format_value(&Value::StringVal("a b".to_string())), "a b");
    assert_eq!(format_value(&Value::Raw(vec![0, 0x1f, 0xab])), "00 1f ab");
    assert_eq!(format_value(&Value::Raw(Vec::new())), "");
}

#[test]
fn payloads_render_per_kind() {
    assert_eq!(
        format_payload(&PayloadContent::NonVerbose(42, Vec::new())),
        "[non-verbose id=42]"
    );
    assert_eq!(
        format_payload(&PayloadContent::NonVerbose(1, vec![1, 2])),
        "[non-verbose id=1] 01 02"
    );
    assert_eq!(
        format_payload(&PayloadContent::ControlMsg(ControlType::Unknown(5), vec![0x10])),
        "[control Unknown(5)] 10"
    );
    assert_eq!(
        format_payload(&PayloadContent::ControlMsg(ControlType::Response, Vec::new())),
        "[control Response] "
    );
    assert_eq!(
        format_payload(&PayloadContent::NetworkTrace(vec![vec![1, 2, 3], vec![], vec![4]])),
        "[network-trace 4B]"
    );
    assert_eq!(format_payload(&PayloadContent::Verbose(Vec::new())), "");
    assert_eq!(
        format_payload(&PayloadContent::Verbose(vec![Value::U16(7), Value::I64(-1)])),
        "7 -1"
    );
}
