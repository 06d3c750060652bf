//! A parsed DLT message, holding what the search reads of it.
use vstd::prelude::*;

verus! {

/// Storage-header timestamp: seconds and microseconds since 1970-01-01 UTC.
#[derive(Clone, Copy, Debug, PartialEq, Eq)]
pub struct DltTimeStamp {
    pub seconds: u32,
    pub microseconds: u32,
}

/// The header that DLT files put in front of each stored message.
#[derive(Clone, Debug)]
pub struct StorageHeader {
    pub timestamp: DltTimeStamp,
    pub ecu_id: String,
}

/// The standard header of a message: its optional ECU id and its optional
/// monotonic timestamp (ticks of 0.1 ms since ECU start).
#[derive(Clone, Debug)]
pub struct StandardHeader {
    pub ecu_id: Option<String>,
    pub timestamp: Option<u32>,
}

/// Log level of a log message.
#[derive(Clone, Copy, Debug, PartialEq, Eq)]
pub enum LogLevel {
    Fatal,
    Error,
    Warn,
    Info,
    Debug,
    Verbose,
    Invalid(u8),
}

/// Kind of a control message.
#[derive(Clone, Copy, Debug, PartialEq, Eq)]
pub enum ControlType {
    Request,
    Response,
    Unknown(u8),
}

/// Message type of the extended header.
#[derive(Clone, Copy, Debug, PartialEq, Eq)]
pub enum MessageType {
    Log(LogLevel),
    ApplicationTrace,
    NetworkTrace,
    Control(ControlType),
    Unknown,
}

/// The extended header: application id, context id and message type.
#[derive(Clone, Debug)]
pub struct ExtendedHeader {
    pub application_id: String,
    pub context_id: String,
    pub message_type: MessageType,
}

/// The value of a verbose argument. Floating-point values are carried as the
/// text that Rust's `Display` gives them.
#[derive(Clone, Debug)]
pub enum Value {
    Bool(u8),
    U8(u8),
    U16(u16),
    U32(u32),
    U64(u64),
    U128(u128),
    I8(i8),
    I16(i16),
    I32(i32),
    I64(i64),
    I128(i128),
    F32(String),
    F64(String),
    StringVal(String),
    Raw(Vec<u8>),
}

/// The payload of a message.
#[derive(Clone, Debug)]
pub enum PayloadContent {
    /// The values of the verbose arguments, in order.
    Verbose(Vec<Value>),
    /// Message id and payload bytes.
    NonVerbose(u32, Vec<u8>),
    /// Control type and payload bytes.
    ControlMsg(ControlType, Vec<u8>),
    /// The slices of a network trace.
    NetworkTrace(Vec<Vec<u8>>),
}

/// A DLT message.
#[derive(Clone, Debug)]
pub struct Message {
    pub storage_header: Option<StorageHeader>,
    pub header: StandardHeader,
    pub extended_header: Option<ExtendedHeader>,
    pub payload: PayloadContent,
}

} // verus!
