//! Matches, options and the choice of sort order.
use vstd::prelude::*;

use crate::timestamp::TimestampKey;

verus! {

/// Timestamp used for sorting matching messages.
#[derive(Clone, Copy, Debug, PartialEq, Eq)]
pub enum SortBy {
    /// Keep messages in file read order.
    FileOrder,
    /// Sort on the DLT standard-header timestamp (0.1 ms ticks since ECU start).
    Monotonic,
    /// Sort on the DLT storage-header timestamp.
    Storage,
}

impl Default for SortBy {
    /// Matches are sorted by monotonic timestamp unless chosen otherwise.
    fn default() -> (sort_by: SortBy)
        ensures
            sort_by == SortBy::Monotonic,
    {
        SortBy::Monotonic
    }
}

/// One grep hit with preformatted output and timestamp sort keys.
#[derive(Debug, Clone)]
pub struct GrepMatch {
    pub index: u64,
    pub monotonic_timestamp: Option<TimestampKey>,
    pub storage_timestamp: Option<TimestampKey>,
    pub line: String,
}

/// The timestamp by which `m` is sorted under `sort_by`; none when matches
/// keep file order.
pub open spec fn sort_key_of(m: GrepMatch, sort_by: SortBy) -> Option<TimestampKey> {
    match sort_by {
        SortBy::FileOrder => None,
        SortBy::Monotonic => m.monotonic_timestamp,
        SortBy::Storage => m.storage_timestamp,
    }
}

impl GrepMatch {
    /// The timestamp by which this match is sorted under `sort_by`.
    pub fn sort_key(&self, sort_by: SortBy) -> (key: Option<TimestampKey>)
        ensures
            key == sort_key_of(*self, sort_by),
    {
        match sort_by {
            SortBy::FileOrder => None,
            SortBy::Monotonic => self.monotonic_timestamp,
            SortBy::Storage => self.storage_timestamp,
        }
    }
}

/// Options controlling grep behaviour (output-format details live in the caller).
#[derive(Clone, Copy)]
pub struct GrepOpts {
    /// Only count matches; write a single summary line per file.
    pub count: bool,
    /// Prefix each match with its 0-based message index.
    pub line_number: bool,
    /// Invert: emit messages that do NOT match the pattern.
    pub invert: bool,
    /// DLT storage header present (normal files); false for raw streams.
    pub with_storage_header: bool,
    /// Highlight matched spans in bold red; color the line-number in bold green.
    /// The caller is responsible for also coloring the prefix it passes in.
    pub highlight: bool,
    /// Timestamp used when sorting matching messages.
    pub sort_by: SortBy,
}

} // verus!
