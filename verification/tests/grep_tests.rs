use std::cmp::Ordering;

use dlt_grep::{
    cmp_optional_timestamp, grep_file_output, highlight_matches, sort_matches, write_grep_match,
    write_grep_matches, DltTimeStamp, FileScan, Flow, GrepMatch, GrepOpts, Message,
    PayloadContent, Pattern, ReadOutcome, SortBy, StandardHeader, StorageHeader, TimestampKey,
    COLOR_LINENO, COLOR_MATCH, COLOR_RESET,
};

fn message(monotonic_ticks: u32, storage_seconds: u32, msg_id: u32) -> Message {
    Message {
        storage_header: Some(StorageHeader {
            timestamp: DltTimeStamp {
                seconds: storage_seconds,
                microseconds: 123_456,
            },
            ecu_id: "ECU".to_string(),
        }),
        header: StandardHeader {
            ecu_id: Some("ECU".to_string()),
            timestamp: Some(monotonic_ticks),
        },
        extended_header: None,
        payload: PayloadContent::NonVerbose(msg_id, Vec::new()),
    }
}

fn opts(sort_by: SortBy) -> GrepOpts {
    GrepOpts {
        count: false,
        line_number: false,
        invert: false,
        with_storage_header: true,
        highlight: false,
        sort_by,
    }
}

fn key(seconds: u64, microseconds: u32) -> Option<TimestampKey> {
    Some(TimestampKey { seconds, microseconds })
}

fn hit(index: u64, monotonic: Option<TimestampKey>, storage: Option<TimestampKey>) -> GrepMatch {
    GrepMatch {
        index,
        monotonic_timestamp: monotonic,
        storage_timestamp: storage,
        line: format!("line {index}"),
    }
}

/// Runs the search of one file whose reads give `outcomes`, as a program
/// driving the scan does, and returns the output and the match count.
fn grep_outcomes(outcomes: Vec<ReadOutcome>, pattern: &Pattern, opts: &GrepOpts) -> (String, u64) {
    let mut scan = FileScan::for_grep_file(opts, "");
    let mut out = Vec::new();
    for outcome in outcomes {
        match scan.step(outcome, pattern, opts, &mut out) {
            Flow::Continue => {}
            Flow::Stop => break,
            Flow::Fail(e) => panic!("unexpected failure: {e}"),
        }
    }
    let n = scan.finish_grep_file(pattern, opts, &mut out, "");
    (String::from_utf8(out).unwrap(), n)
}

#[test]
fn grep_sorts_matches_by_selected_timestamp_or_keeps_file_order() {
    let pattern = Pattern::new(".", false).unwrap();
    let reads = || vec![
        ReadOutcome::Item(message(20_000, 30, 1)),
        ReadOutcome::Item(message(10_000, 40, 2)),
        ReadOutcome::End,
    ];

    let (no_sort, no_sort_count) = grep_outcomes(reads(), &pattern, &opts(SortBy::FileOrder));
    assert_eq!(no_sort_count, 2);
    assert!(no_sort.find("[non-verbose id=1]").unwrap() < no_sort.find("[non-verbose id=2]").unwrap());

    let (monotonic, monotonic_count) = grep_outcomes(reads(), &pattern, &opts(SortBy::Monotonic));
    assert_eq!(monotonic_count, 2);
    assert!(
        monotonic.find("[non-verbose id=2]").unwrap() < monotonic.find("[non-verbose id=1]").unwrap()
    );

    let (storage, storage_count) = grep_outcomes(reads(), &pattern, &opts(SortBy::Storage));
    assert_eq!(storage_count, 2);
    assert!(storage.find("[non-verbose id=1]").unwrap() < storage.find("[non-verbose id=2]").unwrap());
}

#[test]
fn grep_finds_a_single_matching_message() {
    let pattern = Pattern::new("id=42", false).unwrap();
    for sort_by in [SortBy::Monotonic, SortBy::FileOrder] {
        let reads = vec![
            ReadOutcome::Item(message(10_000, 20, 41)),
            ReadOutcome::Item(message(10_000, 20, 42)),
            ReadOutcome::End,
        ];
        let (output, matches) = grep_outcomes(reads, &pattern, &opts(sort_by));
        assert_eq!(matches, 1);
        assert!(output.contains("[non-verbose id=42]"));
        assert!(!output.contains("[non-verbose id=41]"));
    }
}

#[test]
fn count_mode_writes_only_the_count() {
    let pattern = Pattern::new("id=4", false).unwrap();
    let reads = vec![
        ReadOutcome::Item(message(1, 1, 4)),
        ReadOutcome::Item(message(2, 2, 5)),
        ReadOutcome::Item(message(3, 3, 40)),
        ReadOutcome::End,
    ];
    let mut o = opts(SortBy::FileOrder);
    o.count = true;
    let mut scan = FileScan::for_grep_file(&o, "f.dlt:");
    let mut out = Vec::new();
    for r in reads {
        if let Flow::Stop = scan.step(r, &pattern, &o, &mut out) {
            break;
        }
    }
    assert!(scan.records.is_empty());
    let n = scan.finish_grep_file(&pattern, &o, &mut out, "f.dlt:");
    assert_eq!(n, 2);
    assert_eq!(String::from_utf8(out).unwrap(), "f.dlt:2\n");
}

#[test]
fn invert_emits_exactly_the_non_matching_messages() {
    let pattern = Pattern::new("id=5", false).unwrap();
    let reads = || vec![
        ReadOutcome::Item(message(1, 1, 4)),
        ReadOutcome::Item(message(2, 2, 5)),
        ReadOutcome::Item(message(3, 3, 6)),
        ReadOutcome::End,
    ];
    let mut inverted = opts(SortBy::FileOrder);
    inverted.invert = true;
    let (out, n) = grep_outcomes(reads(), &pattern, &inverted);
    assert_eq!(n, 2);
    assert!(out.contains("id=4]") && out.contains("id=6]") && !out.contains("id=5]"));
    let (plain, m) = grep_outcomes(reads(), &pattern, &opts(SortBy::FileOrder));
    assert_eq!(m + n, 3);
    assert!(plain.contains("id=5]"));
}

#[test]
fn skipped_reads_still_advance_the_message_index() {
    let pattern = Pattern::new("id=9", false).unwrap();
    let mut o = opts(SortBy::FileOrder);
    o.line_number = true;
    let reads = vec![
        ReadOutcome::ParsingHickup,
        ReadOutcome::FilteredOut,
        ReadOutcome::Invalid,
        ReadOutcome::Item(message(1, 1, 9)),
        ReadOutcome::IncompleteParse,
        ReadOutcome::Item(message(1, 1, 9)),
    ];
    let (out, n) = grep_outcomes(reads, &pattern, &o);
    assert_eq!(n, 1);
    assert!(out.starts_with("3:"));
}

#[test]
fn unrecoverable_read_fails_the_search() {
    let pattern = Pattern::new(".", false).unwrap();
    let o = opts(SortBy::Monotonic);
    let mut scan = FileScan::collecting();
    let mut out = Vec::new();
    assert!(matches!(
        scan.step(ReadOutcome::Item(message(1, 1, 1)), &pattern, &o, &mut out),
        Flow::Continue
    ));
    match scan.step(ReadOutcome::Unrecoverable("disk gone".to_string()), &pattern, &o, &mut out) {
        Flow::Fail(e) => assert_eq!(e, "disk gone"),
        _ => panic!("expected failure"),
    }
    assert_eq!(scan.index, 1);
    assert_eq!(scan.matches, 1);
    assert_eq!(scan.records.len(), 1);
    assert_eq!(scan.records[0].monotonic_timestamp, key(0, 100));
    assert_eq!(scan.records[0].storage_timestamp, key(1, 123_456));
    assert!(out.is_empty());
}

#[test]
fn optional_timestamps_compare_by_time_with_absent_last() {
    assert_eq!(cmp_optional_timestamp(key(1, 5), key(2, 0)), Ordering::Less);
    assert_eq!(cmp_optional_timestamp(key(2, 5), key(2, 4)), Ordering::Greater);
    assert_eq!(cmp_optional_timestamp(key(2, 5), key(2, 5)), Ordering::Equal);
    assert_eq!(cmp_optional_timestamp(key(9, 9), None), Ordering::Less);
    assert_eq!(cmp_optional_timestamp(None, key(0, 0)), Ordering::Greater);
    assert_eq!(cmp_optional_timestamp(None, None), Ordering::Equal);
}

#[test]
fn sort_orders_by_key_then_index_with_missing_keys_last() {
    let mut ms = vec![
        hit(0, None, key(5, 0)),
        hit(1, key(3, 0), key(1, 0)),
        hit(2, key(1, 0), None),
        hit(3, key(3, 0), key(0, 0)),
        hit(4, key(1, 0), key(2, 0)),
    ];
    let before: Vec<u64> = ms.iter().map(|m| m.index).collect();
    sort_matches(&mut ms, SortBy::FileOrder);
    assert_eq!(ms.iter().map(|m| m.index).collect::<Vec<_>>(), before);

    sort_matches(&mut ms, SortBy::Monotonic);
    assert_eq!(ms.iter().map(|m| m.index).collect::<Vec<_>>(), vec![2, 4, 1, 3, 0]);

    sort_matches(&mut ms, SortBy::Storage);
    assert_eq!(ms.iter().map(|m| m.index).collect::<Vec<_>>(), vec![3, 1, 4, 0, 2]);
}

#[test]
fn sort_handles_many_matches() {
    let mut ms: Vec<GrepMatch> = (0..1000u64)
        .map(|i| hit(i, key((i * 7919) % 101, (i % 3) as u32), None))
        .collect();
    sort_matches(&mut ms, SortBy::Monotonic);
    assert_eq!(ms.len(), 1000);
    for w in ms.windows(2) {
        let a = (w[0].monotonic_timestamp.unwrap(), w[0].index);
        let b = (w[1].monotonic_timestamp.unwrap(), w[1].index);
        assert!(a < b);
    }
}

#[test]
fn match_line_with_index_and_prefix() {
    let pattern = Pattern::new("x", false).unwrap();
    let mut o = opts(SortBy::FileOrder);
    o.line_number = true;
    let mut out = Vec::new();
    write_grep_match(&hit(12, None, None), &pattern, &o, &mut out, "a.dlt:");
    assert_eq!(String::from_utf8(out).unwrap(), "a.dlt:12:line 12\n");

    let mut plain = Vec::new();
    write_grep_match(&hit(12, None, None), &pattern, &opts(SortBy::FileOrder), &mut plain, "");
    assert_eq!(String::from_utf8(plain).unwrap(), "line 12\n");
}

#[test]
fn highlighted_line_colors_index_and_matches() {
    let pattern = Pattern::new("e", false).unwrap();
    let mut o = opts(SortBy::FileOrder);
    o.line_number = true;
    o.highlight = true;
    let mut out = Vec::new();
    write_grep_match(&hit(3, None, None), &pattern, &o, &mut out, "");
    let expected = format!(
        "{COLOR_LINENO}3{COLOR_RESET}:lin{COLOR_MATCH}e{COLOR_RESET} 3\n"
    );
    assert_eq!(String::from_utf8(out).unwrap(), expected);

    o.invert = true;
    let mut inverted = Vec::new();
    write_grep_match(&hit(3, None, None), &pattern, &o, &mut inverted, "");
    assert_eq!(
        String::from_utf8(inverted).unwrap(),
        format!("{COLOR_LINENO}3{COLOR_RESET}:line 3\n")
    );
}

#[test]
fn highlight_wraps_every_match_and_keeps_unicode() {
    let pattern = Pattern::new("ä+", false).unwrap();
    let mut out = Vec::new();
    highlight_matches("xäyääz", &pattern, &mut out);
    assert_eq!(
        String::from_utf8(out).unwrap(),
        format!("x{COLOR_MATCH}ä{COLOR_RESET}y{COLOR_MATCH}ää{COLOR_RESET}z")
    );
    let mut none = Vec::new();
    highlight_matches("abc", &pattern, &mut none);
    assert_eq!(String::from_utf8(none).unwrap(), "abc");
}

#[test]
fn case_insensitive_pattern_and_invalid_pattern() {
    let pattern = Pattern::new("ERROR", true).unwrap();
    let mut out = Vec::new();
    let mut o = opts(SortBy::FileOrder);
    o.highlight = true;
    let mut m = hit(0, None, None);
    m.line = "an error".to_string();
    write_grep_match(&m, &pattern, &o, &mut out, "");
    assert_eq!(
        String::from_utf8(out).unwrap(),
        format!("an {COLOR_MATCH}error{COLOR_RESET}\n")
    );
    let refused = Pattern::new("(", false);
    assert!(refused.is_err());
    assert!(!refused.err().unwrap().message.is_empty());
}

#[test]
fn several_matches_are_written_in_order() {
    let pattern = Pattern::new(".", false).unwrap();
    let mut out = Vec::new();
    write_grep_matches(
        &[hit(1, None, None), hit(0, None, None)],
        &pattern,
        &opts(SortBy::FileOrder),
        &mut out,
        "p:",
    );
    assert_eq!(String::from_utf8(out).unwrap(), "p:line 1\np:line 0\n");
}

#[test]
fn collected_output_counts_or_sorts() {
    let pattern = Pattern::new(".", false).unwrap();
    let records = vec![hit(0, key(5, 0), None), hit(1, key(2, 0), None)];
    let mut out = Vec::new();
    grep_file_output(records.clone(), 2, &pattern, &opts(SortBy::Monotonic), &mut out, "");
    assert_eq!(String::from_utf8(out).unwrap(), "line 1\nline 0\n");

    let mut o = opts(SortBy::Monotonic);
    o.count = true;
    let mut counted = Vec::new();
    grep_file_output(Vec::new(), 17, &pattern, &o, &mut counted, "x:");
    assert_eq!(String::from_utf8(counted).unwrap(), "x:17\n");
}

#[test]
fn default_sort_is_monotonic() {
    assert_eq!(SortBy::default(), SortBy::Monotonic);
}

#[test]
fn streamed_output_equals_collected_matches_written_in_file_order() {
    let pattern = Pattern::new("id=[13]", false).unwrap();
    let mut o = opts(SortBy::FileOrder);
    o.line_number = true;
    let reads = || vec![
        ReadOutcome::Item(message(5, 5, 1)),
        ReadOutcome::ParsingHickup,
        ReadOutcome::Item(message(4, 4, 2)),
        ReadOutcome::Item(message(3, 3, 3)),
        ReadOutcome::End,
    ];
    let mut streaming = FileScan::streaming("f:");
    let mut streamed = Vec::new();
    for r in reads() {
        if !matches!(streaming.step(r, &pattern, &o, &mut streamed), Flow::Continue) {
            break;
        }
    }
    let mut collecting = FileScan::collecting();
    let mut unused = Vec::new();
    for r in reads() {
        if !matches!(collecting.step(r, &pattern, &o, &mut unused), Flow::Continue) {
            break;
        }
    }
    let mut written = Vec::new();
    write_grep_matches(&collecting.records, &pattern, &o, &mut written, "f:");
    assert_eq!(streamed, written);
    assert_eq!(streaming.matches, collecting.matches);
    assert_eq!(String::from_utf8(written).unwrap().lines().count(), 2);
}

#[test]
fn sort_keeps_the_order_of_tied_matches() {
    let mut a = hit(4, key(1, 0), None);
    a.line = "first".to_string();
    let mut b = hit(4, key(1, 0), None);
    b.line = "second".to_string();
    let mut ms = vec![hit(9, key(0, 5), None), a, hit(1, key(2, 0), None), b];
    sort_matches(&mut ms, SortBy::Monotonic);
    let lines: Vec<&str> = ms.iter().map(|m| m.line.as_str()).collect();
    assert_eq!(lines, vec!["line 9", "first", "second", "line 1"]);
}
