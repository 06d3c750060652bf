//! Search DLT (Diagnostic Log and Trace) messages with a regular expression.
//!
//! The library holds the logic of the search: the textual rendering of a
//! message, the per-file scan that decides which messages are emitted, the
//! ordering of matches by timestamp and the rendering of output lines.
use vstd::prelude::*;

mod calendar;
mod format;
mod grep;
mod layout;
mod message;
mod order;
mod output;
mod pattern;
mod scan;
mod selection;
mod sort;
mod text;
mod timestamp;

pub use calendar::{
    civil_date, civil_from_days, days_before_month, days_before_year, days_from_civil,
    days_in_month, days_in_year, is_leap_year, is_valid_date, lemma_civil_date,
    lemma_civil_date_next, lemma_civil_date_round_trip, lemma_days_from_civil_injective,
    lemma_timestamp_parts, lemma_year_length, next_date,
};
pub use format::{
    control_type_text, date_text, ecu_text, extended_text, format_message, format_message_type,
    format_payload, format_value, ascii_lower_text, lemma_control_payload_names_type,
    lemma_control_type_names, lemma_log_level_names, lemma_message_type_names_distinct,
    lemma_signed_value_text, lemma_unsigned_value_text, log_level_debug_name, signed_number,
    unsigned_number, lemma_storage_text_len, message_text, message_type_text, monotonic_text, payload_text,
    storage_text, time_text, total_len, value_text, values_text, write_monotonic_timestamp,
    write_storage_timestamp,
};
pub use grep::{sort_key_of, GrepMatch, GrepOpts, SortBy};
pub use layout::{
    error_exit_code, exit_code, lemma_file_name_shown_once, file_output, file_output_bytes, file_prefix, file_prefix_text, show_filename,
    use_color, use_heading, ColorMode,
};
pub use message::{
    ControlType, DltTimeStamp, ExtendedHeader, LogLevel, Message, MessageType, PayloadContent,
    StandardHeader, StorageHeader, Value,
};
pub use order::{
    cmp_optional_timestamp, key_earlier, lemma_match_le_antisymmetric, lemma_match_le_total,
    lemma_match_le_transitive, lemma_optional_key_trichotomy, match_after, match_le,
    optional_key_before,
};
pub use output::{
    highlight_matches, highlighted_bytes, lemma_encode_utf8_concat, lemma_highlight_without_matches,
    lemma_line_output_prefix, line_head,
    line_output, marked_bytes, match_output, matches_output, spans_end, write_grep_match,
    write_grep_matches, write_highlighted,
};
pub use pattern::{
    regex_builds, regex_is_match, regex_match_spans, spans_well_formed, Pattern, PatternError,
};
pub use scan::{
    collect_reads, collect_step, emits, grep_file_output, grep_file_output_spec, has_index,
    hit_of, hits_output, is_message_index, lemma_invert_splits_indices, lemma_collect_ignores_sort_order, lemma_grep_file_output_determined,
    lemma_invert_complements, lemma_invert_splits_messages, lemma_matches_output_hits,
    lemma_records_indices_distinct, lemma_stream_writes_collected, messages_read, read_goes_on,
    stream_reads, stream_step, FileScan, Flow, ReadOutcome,
};
pub use selection::{
    ascii_lower, ends_with_ignoring_ascii_case, is_dlt_file_name, is_dlt_name, is_searched,
    search_roots,
};
pub use sort::{
    indices_distinct, is_sorted_by, lemma_indices_distinct_permutation, lemma_sorted_unique,
    sort_matches, tied, tied_with, ties,
};
pub use text::{
    all_digits, decimal, digit_char, digits_value, lemma_decimal_injective, lemma_decimal_reads_back,
    hex_byte, hex_bytes, hex_digit, left_aligned, lemma_pow10_values,
    lemma_zero_padded_len, pow10, repeat_char,
    signed_decimal, signed_zero_padded, zero_padded,
};
pub use timestamp::{
    header_storage_key, message_monotonic_key, monotonic_key, storage_key, TimestampKey,
};

verus! {

/// ANSI colour code of file paths (bold magenta).
pub const COLOR_PATH: &'static str = "\x1b[1;35m";

/// ANSI colour code of matched text (bold red).
pub const COLOR_MATCH: &'static str = "\x1b[1;31m";

/// ANSI colour code of message indices (bold green).
pub const COLOR_LINENO: &'static str = "\x1b[1;32m";

/// ANSI code that ends a colour.
pub const COLOR_RESET: &'static str = "\x1b[0m";

} // verus!
