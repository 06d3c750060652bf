//! The one-line textual rendering of a DLT message, against which the pattern
//! is matched.
use vstd::prelude::*;
use vstd::string::StringExecFns;

use crate::calendar::{civil_date, civil_from_days, lemma_timestamp_parts};
use crate::message::{ControlType, LogLevel, Message, MessageType, PayloadContent, Value};
use crate::selection::ascii_lower;
use crate::text::{
    all_digits, decimal, digits_value, hex_bytes, lemma_decimal_injective, lemma_decimal_reads_back,
    lemma_pow10_values, lemma_zero_padded_len, left_aligned, push_char, push_decimal, push_hex_bytes, push_left_aligned,
    push_signed_decimal, push_signed_zero_padded, push_zero_padded, signed_decimal,
    signed_zero_padded, zero_padded,
};
use crate::timestamp::{
    header_storage_key, message_monotonic_key, monotonic_timestamp, storage_timestamp,
    TimestampKey,
};

verus! {

/// The monotonic-timestamp field: seconds, a dot, six digits of microseconds
/// and a space; dashes where the message has no such timestamp.
pub open spec fn monotonic_text(ts: Option<TimestampKey>) -> Seq<char> {
    match ts {
        Some(ts) => decimal(ts.seconds as nat) + seq!['.'] + zero_padded(ts.microseconds as nat, 6)
            + seq![' '],
        None => "-.------ "@,
    }
}

/// The UTC date `days` days after 1970-01-01 as `YYYY-MM-DD`, the year
/// narrowed to `i32`.
pub open spec fn date_text(days: int) -> Seq<char> {
    let date = civil_date(days);
    signed_zero_padded((date.0 as i32) as int, 4) + seq!['-'] + zero_padded(date.1 as nat, 2)
        + seq!['-'] + zero_padded(date.2 as nat, 2)
}

/// The time of day `second_of_day` seconds and `microseconds` after midnight
/// as `hh:mm:ss.uuuuuu`.
pub open spec fn time_text(second_of_day: nat, microseconds: nat) -> Seq<char> {
    zero_padded(second_of_day / 3_600, 2) + seq![':'] + zero_padded((second_of_day % 3_600) / 60, 2)
        + seq![':'] + zero_padded(second_of_day % 60, 2) + seq!['.'] + zero_padded(
        microseconds,
        6,
    )
}

/// The storage-timestamp field: the UTC date and time in ISO-8601 form,
/// `YYYY-MM-DDThh:mm:ss.uuuuuuZ`, and a space; dashes where the message has no
/// storage header.
pub open spec fn storage_text(ts: Option<TimestampKey>) -> Seq<char> {
    match ts {
        Some(ts) => date_text((ts.seconds / 86_400) as int) + seq!['T'] + time_text(
            (ts.seconds % 86_400) as nat,
            ts.microseconds as nat,
        ) + seq!['Z', ' '],
        None => "--------------------------- "@,
    }
}

/// The ECU field: the storage header's ECU id, else the standard header's,
/// padded to four characters, and a space.
pub open spec fn ecu_text(msg: Message) -> Seq<char> {
    match msg.storage_header {
        Some(sh) => left_aligned(sh.ecu_id@, 4) + seq![' '],
        None => match msg.header.ecu_id {
            Some(id) => left_aligned(id@, 4) + seq![' '],
            None => "---- "@,
        },
    }
}

/// The name of a message type, as the output shows it.
pub open spec fn message_type_text(mt: MessageType) -> Seq<char> {
    match mt {
        MessageType::Log(level) => match level {
            LogLevel::Fatal => "fatal  "@,
            LogLevel::Error => "error  "@,
            LogLevel::Warn => "warn   "@,
            LogLevel::Info => "info   "@,
            LogLevel::Debug => "debug  "@,
            LogLevel::Verbose => "verbose"@,
            LogLevel::Invalid(_) => "log?   "@,
        },
        MessageType::ApplicationTrace => "apptrace"@,
        MessageType::NetworkTrace => "nettrace"@,
        MessageType::Control(_) => "control "@,
        MessageType::Unknown => "unknown "@,
    }
}

/// The extended-header fields: application id, context id (each padded to
/// four characters) and message type, each followed by a space.
pub open spec fn extended_text(msg: Message) -> Seq<char> {
    match msg.extended_header {
        Some(eh) => left_aligned(eh.application_id@, 4) + seq![' '] + left_aligned(
            eh.context_id@,
            4,
        ) + seq![' '] + message_type_text(eh.message_type) + seq![' '],
        None => "---- ---- --- "@,
    }
}

/// The rendering of one argument value.
pub open spec fn value_text(v: Value) -> Seq<char> {
    match v {
        Value::Bool(b) => if b != 0 {
            "true"@
        } else {
            "false"@
        },
        Value::U8(n) => decimal(n as nat),
        Value::U16(n) => decimal(n as nat),
        Value::U32(n) => decimal(n as nat),
        Value::U64(n) => decimal(n as nat),
        Value::U128(n) => decimal(n as nat),
        Value::I8(n) => signed_decimal(n as int),
        Value::I16(n) => signed_decimal(n as int),
        Value::I32(n) => signed_decimal(n as int),
        Value::I64(n) => signed_decimal(n as int),
        Value::I128(n) => signed_decimal(n as int),
        Value::F32(s) => s@,
        Value::F64(s) => s@,
        Value::StringVal(s) => s@,
        Value::Raw(bytes) => hex_bytes(bytes@),
    }
}

/// The renderings of the values, separated by single spaces.
pub open spec fn values_text(values: Seq<Value>) -> Seq<char>
    decreases values.len(),
{
    if values.len() == 0 {
        seq![]
    } else if values.len() == 1 {
        value_text(values[0])
    } else {
        values_text(values.drop_last()) + seq![' '] + value_text(values.last())
    }
}

/// The name of a control type, as Rust's derived `Debug` writes it.
pub open spec fn control_type_text(ct: ControlType) -> Seq<char> {
    match ct {
        ControlType::Request => "Request"@,
        ControlType::Response => "Response"@,
        ControlType::Unknown(n) => "Unknown("@ + decimal(n as nat) + ")"@,
    }
}

/// The total length of the slices.
pub open spec fn total_len(slices: Seq<Vec<u8>>) -> nat
    decreases slices.len(),
{
    if slices.len() == 0 {
        0
    } else {
        total_len(slices.drop_last()) + slices.last()@.len()
    }
}

/// The rendering of a payload.
pub open spec fn payload_text(p: PayloadContent) -> Seq<char> {
    match p {
        PayloadContent::Verbose(values) => values_text(values@),
        PayloadContent::NonVerbose(id, bytes) => "[non-verbose id="@ + decimal(id as nat) + "]"@
            + if bytes@.len() == 0 {
            Seq::<char>::empty()
        } else {
            seq![' '] + hex_bytes(bytes@)
        },
        PayloadContent::ControlMsg(ct, bytes) => "[control "@ + control_type_text(ct) + "] "@
            + hex_bytes(bytes@),
        PayloadContent::NetworkTrace(slices) => "[network-trace "@ + decimal(total_len(slices@))
            + "B]"@,
    }
}

/// The one-line rendering of a message: monotonic timestamp, storage
/// timestamp, ECU id, application id, context id, message type and payload.
pub open spec fn message_text(msg: Message) -> Seq<char> {
    monotonic_text(message_monotonic_key(msg)) + storage_text(
        header_storage_key(msg.storage_header),
    ) + ecu_text(msg) + extended_text(msg) + payload_text(msg.payload)
}

/// Appends the monotonic-timestamp field.
pub fn write_monotonic_timestamp(out: &mut String, ts: Option<TimestampKey>)
    ensures
        final(out)@ == old(out)@ + monotonic_text(ts),
{
    match ts {
        Some(ts) => {
            push_decimal(out, ts.seconds as u128);
            push_char(out, '.');
            push_zero_padded(out, ts.microseconds as u128, 6);
            push_char(out, ' ');
        },
        None => out.append("-.------ "),
    }
}

/// Appends the UTC date `days` days after 1970-01-01.
fn push_date(out: &mut String, days: u64)
    requires
        days <= 0x1_0000_0000_0000_0000int / 86_400,
    ensures
        final(out)@ == old(out)@ + date_text(days as int),
{
    let (year, month, day) = civil_from_days(days as i64);
    push_signed_zero_padded(out, year as i128, 4);
    push_char(out, '-');
    push_zero_padded(out, month as u128, 2);
    push_char(out, '-');
    push_zero_padded(out, day as u128, 2);
}

/// Appends the time of day.
fn push_time(out: &mut String, second_of_day: u64, microseconds: u32)
    ensures
        final(out)@ == old(out)@ + time_text(second_of_day as nat, microseconds as nat),
{
    let hour = second_of_day / 3_600;
    let minute = (second_of_day % 3_600) / 60;
    let second = second_of_day % 60;
    push_zero_padded(out, hour as u128, 2);
    push_char(out, ':');
    push_zero_padded(out, minute as u128, 2);
    push_char(out, ':');
    push_zero_padded(out, second as u128, 2);
    push_char(out, '.');
    push_zero_padded(out, microseconds as u128, 6);
}

/// Appends the storage-timestamp field.
pub fn write_storage_timestamp(out: &mut String, ts: Option<TimestampKey>)
    ensures
        final(out)@ == old(out)@ + storage_text(ts),
{
    match ts {
        Some(ts) => {
            push_date(out, ts.seconds / 86_400);
            push_char(out, 'T');
            push_time(out, ts.seconds % 86_400, ts.microseconds);
            push_char(out, 'Z');
            push_char(out, ' ');
        },
        None => out.append("--------------------------- "),
    }
}

/// The name of a message type, as the output shows it.
pub fn format_message_type(mt: &MessageType) -> (name: &'static str)
    ensures
        name@ == message_type_text(*mt),
{
    match mt {
        MessageType::Log(level) => match level {
            LogLevel::Fatal => "fatal  ",
            LogLevel::Error => "error  ",
            LogLevel::Warn => "warn   ",
            LogLevel::Info => "info   ",
            LogLevel::Debug => "debug  ",
            LogLevel::Verbose => "verbose",
            LogLevel::Invalid(_) => "log?   ",
        },
        MessageType::ApplicationTrace => "apptrace",
        MessageType::NetworkTrace => "nettrace",
        MessageType::Control(_) => "control ",
        MessageType::Unknown => "unknown ",
    }
}

/// Appends the rendering of one argument value.
fn push_value(out: &mut String, v: &Value)
    ensures
        final(out)@ == old(out)@ + value_text(*v),
{
    match v {
        Value::Bool(b) => {
            if *b != 0 {
                out.append("true");
            } else {
                out.append("false");
            }
        },
        Value::U8(n) => push_decimal(out, *n as u128),
        Value::U16(n) => push_decimal(out, *n as u128),
        Value::U32(n) => push_decimal(out, *n as u128),
        Value::U64(n) => push_decimal(out, *n as u128),
        Value::U128(n) => push_decimal(out, *n),
        Value::I8(n) => push_signed_decimal(out, *n as i128),
        Value::I16(n) => push_signed_decimal(out, *n as i128),
        Value::I32(n) => push_signed_decimal(out, *n as i128),
        Value::I64(n) => push_signed_decimal(out, *n as i128),
        Value::I128(n) => push_signed_decimal(out, *n),
        Value::F32(s) => out.append(s.as_str()),
        Value::F64(s) => out.append(s.as_str()),
        Value::StringVal(s) => out.append(s.as_str()),
        Value::Raw(bytes) => push_hex_bytes(out, bytes.as_slice()),
    }
}

/// The rendering of one argument value.
pub fn format_value(v: &Value) -> (text: String)
    ensures
        text@ == value_text(*v),
{
    let mut out = String::new();
    push_value(&mut out, v);
    out
}

/// Appends the name of a control type.
fn push_control_type(out: &mut String, ct: &ControlType)
    ensures
        final(out)@ == old(out)@ + control_type_text(*ct),
{
    match ct {
        ControlType::Request => out.append("Request"),
        ControlType::Response => out.append("Response"),
        ControlType::Unknown(n) => {
            out.append("Unknown(");
            push_decimal(out, *n as u128);
            out.append(")");
        },
    }
}

/// Appends the rendering of a payload.
fn push_payload(out: &mut String, payload: &PayloadContent)
    ensures
        final(out)@ == old(out)@ + payload_text(*payload),
{
    match payload {
        PayloadContent::Verbose(values) => {
            let mut i: usize = 0;
            while i < values.len()
                invariant
                    i <= values@.len(),
                    out@ == old(out)@ + values_text(values@.take(i as int)),
                decreases values@.len() - i,
            {
                if i > 0 {
                    push_char(out, ' ');
                }
                push_value(out, &values[i]);
                assert(values@.take(i + 1).drop_last() =~= values@.take(i as int));
                i += 1;
            }
            assert(values@.take(values@.len() as int) =~= values@);
        },
        PayloadContent::NonVerbose(msg_id, bytes) => {
            out.append("[non-verbose id=");
            push_decimal(out, *msg_id as u128);
            out.append("]");
            if bytes.len() > 0 {
                push_char(out, ' ');
                push_hex_bytes(out, bytes.as_slice());
            }
        },
        PayloadContent::ControlMsg(ctrl, bytes) => {
            out.append("[control ");
            push_control_type(out, ctrl);
            out.append("] ");
            push_hex_bytes(out, bytes.as_slice());
        },
        PayloadContent::NetworkTrace(slices) => {
            let mut total: u128 = 0;
            let mut i: usize = 0;
            while i < slices.len()
                invariant
                    i <= slices@.len(),
                    total == total_len(slices@.take(i as int)),
                    total <= i * 0x1_0000_0000_0000_0000,
                decreases slices@.len() - i,
            {
                let len = slices[i].len();
                assert(slices@.take(i + 1).drop_last() =~= slices@.take(i as int));
                assert(total + len <= (i + 1) * 0x1_0000_0000_0000_0000) by (nonlinear_arith)
                    requires
                        total <= i * 0x1_0000_0000_0000_0000,
                        len < 0x1_0000_0000_0000_0000,
                ;
                assert((i + 1) * 0x1_0000_0000_0000_0000 <= 0x1_0000_0000_0000_0000 * 0x1_0000_0000_0000_0000) by (nonlinear_arith)
                    requires
                        i < 0x1_0000_0000_0000_0000,
                ;
                total = total + len as u128;
                i += 1;
            }
            assert(slices@.take(slices@.len() as int) =~= slices@);
            out.append("[network-trace ");
            push_decimal(out, total);
            out.append("B]");
        },
    }
}

/// The rendering of a payload.
pub fn format_payload(payload: &PayloadContent) -> (text: String)
    ensures
        text@ == payload_text(*payload),
{
    let mut out = String::new();
    push_payload(&mut out, payload);
    out
}

/// The one-line rendering of a message.
pub fn format_message(msg: &Message) -> (line: String)
    ensures
        line@ == message_text(*msg),
{
    let mut out = String::new();
    write_monotonic_timestamp(&mut out, monotonic_timestamp(msg));
    write_storage_timestamp(&mut out, storage_timestamp(msg.storage_header.as_ref()));
    match &msg.storage_header {
        Some(sh) => {
            push_left_aligned(&mut out, sh.ecu_id.as_str(), 4);
            push_char(&mut out, ' ');
        },
        None => match &msg.header.ecu_id {
            Some(id) => {
                push_left_aligned(&mut out, id.as_str(), 4);
                push_char(&mut out, ' ');
            },
            None => out.append("---- "),
        },
    }
    match &msg.extended_header {
        Some(eh) => {
            push_left_aligned(&mut out, eh.application_id.as_str(), 4);
            push_char(&mut out, ' ');
            push_left_aligned(&mut out, eh.context_id.as_str(), 4);
            push_char(&mut out, ' ');
            out.append(format_message_type(&eh.message_type));
            push_char(&mut out, ' ');
        },
        None => out.append("---- ---- --- "),
    }
    push_payload(&mut out, &msg.payload);
    out
}

/// The storage-timestamp field of a timestamp before year 10000 with fewer
/// than a million microseconds is 28 characters long.
pub proof fn lemma_storage_text_len(ts: TimestampKey)
    requires
        ts.seconds < 253_402_300_800,
        ts.microseconds < 1_000_000,
    ensures
        storage_text(Some(ts)).len() == 28,
{
    lemma_timestamp_parts(ts.seconds as int);
    lemma_pow10_values();
    let date = civil_date((ts.seconds / 86_400) as int);
    let second_of_day = (ts.seconds % 86_400) as nat;
    assert((date.0 as i32) as int == date.0);
    lemma_zero_padded_len(date.0 as nat, 4);
    lemma_zero_padded_len(date.1 as nat, 2);
    lemma_zero_padded_len(date.2 as nat, 2);
    lemma_zero_padded_len(second_of_day / 3_600, 2);
    lemma_zero_padded_len((second_of_day % 3_600) / 60, 2);
    lemma_zero_padded_len(second_of_day % 60, 2);
    lemma_zero_padded_len(ts.microseconds as nat, 6);
}

/// The name that Rust's derived `Debug` gives a log level.
pub open spec fn log_level_debug_name(level: LogLevel) -> Seq<char> {
    match level {
        LogLevel::Fatal => "Fatal"@,
        LogLevel::Error => "Error"@,
        LogLevel::Warn => "Warn"@,
        LogLevel::Info => "Info"@,
        LogLevel::Debug => "Debug"@,
        LogLevel::Verbose => "Verbose"@,
        LogLevel::Invalid(n) => "Invalid("@ + decimal(n as nat) + ")"@,
    }
}

/// `s` with its ASCII upper-case letters made lower-case.
pub open spec fn ascii_lower_text(s: Seq<char>) -> Seq<char> {
    s.map_values(|c: char| ascii_lower(c))
}

/// A log message of a known level is named by the lower-case name of its
/// level, padded with spaces to the seven characters of the column.
pub proof fn lemma_log_level_names(level: LogLevel)
    requires
        !(level is Invalid),
    ensures
        message_type_text(MessageType::Log(level)) == left_aligned(
            ascii_lower_text(log_level_debug_name(level)),
            7,
        ),
        message_type_text(MessageType::Log(level)).len() == 7,
{
    reveal_strlit("Fatal");
    reveal_strlit("Error");
    reveal_strlit("Warn");
    reveal_strlit("Info");
    reveal_strlit("Debug");
    reveal_strlit("Verbose");
    reveal_strlit("fatal  ");
    reveal_strlit("error  ");
    reveal_strlit("warn   ");
    reveal_strlit("info   ");
    reveal_strlit("debug  ");
    reveal_strlit("verbose");
    let text = message_type_text(MessageType::Log(level));
    let name = ascii_lower_text(log_level_debug_name(level));
    assert(text =~= left_aligned(name, 7));
}

/// Message types of different kinds get different names: two message types
/// with the same name are equal, both logs of an invalid level, or both
/// control messages. Each name starts with its own character.
pub proof fn lemma_message_type_names_distinct(a: MessageType, b: MessageType)
    requires
        message_type_text(a) == message_type_text(b),
    ensures
        a == b || (a matches MessageType::Log(LogLevel::Invalid(_)) && b matches MessageType::Log(
            LogLevel::Invalid(_),
        )) || (a is Control && b is Control),
{
    lemma_message_type_initial(a);
    lemma_message_type_initial(b);
    assert(message_type_text(a)[0] == message_type_text(b)[0]);
}

/// The first character of a message type's name.
spec fn message_type_initial(mt: MessageType) -> char {
    match mt {
        MessageType::Log(level) => match level {
            LogLevel::Fatal => 'f',
            LogLevel::Error => 'e',
            LogLevel::Warn => 'w',
            LogLevel::Info => 'i',
            LogLevel::Debug => 'd',
            LogLevel::Verbose => 'v',
            LogLevel::Invalid(_) => 'l',
        },
        MessageType::ApplicationTrace => 'a',
        MessageType::NetworkTrace => 'n',
        MessageType::Control(_) => 'c',
        MessageType::Unknown => 'u',
    }
}

proof fn lemma_message_type_initial(mt: MessageType)
    ensures
        message_type_text(mt).len() > 0,
        message_type_text(mt)[0] == message_type_initial(mt),
{
    reveal_strlit("fatal  ");
    reveal_strlit("error  ");
    reveal_strlit("warn   ");
    reveal_strlit("info   ");
    reveal_strlit("debug  ");
    reveal_strlit("verbose");
    reveal_strlit("log?   ");
    reveal_strlit("apptrace");
    reveal_strlit("nettrace");
    reveal_strlit("control ");
    reveal_strlit("unknown ");
}

/// The number an unsigned integer value carries, of whatever width.
pub open spec fn unsigned_number(v: Value) -> Option<nat> {
    match v {
        Value::U8(x) => Some(x as nat),
        Value::U16(x) => Some(x as nat),
        Value::U32(x) => Some(x as nat),
        Value::U64(x) => Some(x as nat),
        Value::U128(x) => Some(x as nat),
        _ => None,
    }
}

/// The number a signed integer value carries, of whatever width.
pub open spec fn signed_number(v: Value) -> Option<int> {
    match v {
        Value::I8(x) => Some(x as int),
        Value::I16(x) => Some(x as int),
        Value::I32(x) => Some(x as int),
        Value::I64(x) => Some(x as int),
        Value::I128(x) => Some(x as int),
        _ => None,
    }
}

/// Every unsigned value, whatever its width, is rendered as the decimal
/// digits of the number itself: a run of digits that reads back as the
/// number, with no leading zero.
pub proof fn lemma_unsigned_value_text(v: Value, n: nat)
    requires
        unsigned_number(v) == Some(n),
    ensures
        value_text(v) == decimal(n),
        all_digits(value_text(v)),
        digits_value(value_text(v)) == n,
        n > 0 ==> value_text(v)[0] != '0',
{
    lemma_decimal_reads_back(n);
}

/// Every signed value, whatever its width, is rendered as the digits of its
/// magnitude, after a minus sign where it is negative.
pub proof fn lemma_signed_value_text(v: Value, i: int)
    requires
        signed_number(v) == Some(i),
    ensures
        value_text(v) == signed_decimal(i),
        i < 0 ==> value_text(v)[0] == '-' && all_digits(value_text(v).drop_first())
            && digits_value(value_text(v).drop_first()) == -i,
        i >= 0 ==> all_digits(value_text(v)) && digits_value(value_text(v)) == i,
{
    if i < 0 {
        lemma_decimal_reads_back((-i) as nat);
        assert(value_text(v).drop_first() =~= decimal((-i) as nat));
    } else {
        lemma_decimal_reads_back(i as nat);
    }
}

/// Different control types are named differently; an unknown control type is
/// named `Unknown(` and the digits of its number and `)`.
pub proof fn lemma_control_type_names(a: ControlType, b: ControlType)
    ensures
        a != b ==> control_type_text(a) != control_type_text(b),
        a matches ControlType::Unknown(n) ==> {
            let t = control_type_text(a);
            &&& t.take(8) == "Unknown("@
            &&& t.last() == ')'
            &&& digits_value(t.subrange(8, t.len() - 1)) == n
        },
{
    reveal_strlit("Request");
    reveal_strlit("Response");
    reveal_strlit("Unknown(");
    reveal_strlit(")");
    if let ControlType::Unknown(n) = a {
        lemma_decimal_reads_back(n as nat);
        let t = control_type_text(a);
        assert(t.take(8) =~= "Unknown("@);
        assert(t.subrange(8, t.len() - 1) =~= decimal(n as nat));
    }
    if a != b && control_type_text(a) == control_type_text(b) {
        let ta = control_type_text(a);
        let tb = control_type_text(b);
        assert(ta[0] == tb[0]);
        assert(ta[2] == tb[2]);
        if let ControlType::Unknown(n) = a {
            if let ControlType::Unknown(m) = b {
                lemma_decimal_reads_back(n as nat);
                lemma_decimal_reads_back(m as nat);
                assert(ta.subrange(8, ta.len() - 1) =~= decimal(n as nat));
                assert(tb.subrange(8, tb.len() - 1) =~= decimal(m as nat));
                lemma_decimal_injective(n as nat, m as nat);
            }
        }
    }
}

/// A control payload names its control type: two control payloads with the
/// same bytes and the same rendering have the same control type.
pub proof fn lemma_control_payload_names_type(a: ControlType, b: ControlType, bytes: Vec<u8>)
    requires
        payload_text(PayloadContent::ControlMsg(a, bytes)) == payload_text(
            PayloadContent::ControlMsg(b, bytes),
        ),
    ensures
        a == b,
{
    let head = "[control "@;
    let tail = "] "@ + hex_bytes(bytes@);
    let ta = control_type_text(a);
    let tb = control_type_text(b);
    let pa = payload_text(PayloadContent::ControlMsg(a, bytes));
    assert(pa == head + ta + tail);
    assert(payload_text(PayloadContent::ControlMsg(b, bytes)) == head + tb + tail);
    assert(ta.len() == tb.len());
    assert(ta =~= pa.subrange(head.len() as int, (head.len() + ta.len()) as int));
    assert(tb =~= pa.subrange(head.len() as int, (head.len() + tb.len()) as int));
    lemma_control_type_names(a, b);
}
} // verus!
