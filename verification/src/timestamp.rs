//! Timestamps by which matches are ordered.
use vstd::prelude::*;

use crate::message::{DltTimeStamp, Message, StorageHeader};

verus! {

/// Timestamp used for deterministic message ordering.
#[derive(Clone, Copy, Debug, Eq, PartialEq, Ord, PartialOrd)]
pub struct TimestampKey {
    pub seconds: u64,
    pub microseconds: u32,
}

/// The key of a monotonic timestamp of `raw` ticks of 0.1 ms.
pub open spec fn monotonic_key(raw: u32) -> TimestampKey {
    TimestampKey {
        seconds: ((raw * 100) / 1_000_000) as u64,
        microseconds: ((raw * 100) % 1_000_000) as u32,
    }
}

/// The key of a storage-header timestamp.
pub open spec fn storage_key(ts: DltTimeStamp) -> TimestampKey {
    TimestampKey { seconds: ts.seconds as u64, microseconds: ts.microseconds }
}

/// The monotonic key of a message, where its standard header has a timestamp.
pub open spec fn message_monotonic_key(msg: Message) -> Option<TimestampKey> {
    match msg.header.timestamp {
        Some(raw) => Some(monotonic_key(raw)),
        None => None,
    }
}

/// The storage key of a message, where it has a storage header.
pub open spec fn header_storage_key(storage_header: Option<StorageHeader>) -> Option<
    TimestampKey,
> {
    match storage_header {
        Some(sh) => Some(storage_key(sh.timestamp)),
        None => None,
    }
}

impl TimestampKey {
    /// Converts a DLT monotonic timestamp (ticks of 0.1 ms since ECU start).
    pub fn from_monotonic(raw: u32) -> (key: Self)
        ensures
            key == monotonic_key(raw),
            key.seconds * 1_000_000 + key.microseconds == raw * 100,
            key.microseconds < 1_000_000,
    {
        let us: u64 = (raw as u64) * 100;
        Self { seconds: us / 1_000_000, microseconds: (us % 1_000_000) as u32 }
    }

    /// Converts a storage-header timestamp.
    pub fn from_storage(ts: &DltTimeStamp) -> (key: Self)
        ensures
            key == storage_key(*ts),
    {
        Self { seconds: ts.seconds as u64, microseconds: ts.microseconds }
    }
}

/// The storage key of a message with the given storage header.
pub fn storage_timestamp(storage_header: Option<&StorageHeader>) -> (key: Option<TimestampKey>)
    ensures
        key == header_storage_key(
            match storage_header {
                Some(sh) => Some(*sh),
                None => None,
            },
        ),
{
    match storage_header {
        Some(sh) => Some(TimestampKey::from_storage(&sh.timestamp)),
        None => None,
    }
}

/// The monotonic key of a message.
pub fn monotonic_timestamp(msg: &Message) -> (key: Option<TimestampKey>)
    ensures
        key == message_monotonic_key(*msg),
{
    match msg.header.timestamp {
        Some(raw) => Some(TimestampKey::from_monotonic(raw)),
        None => None,
    }
}

} // verus!
