//! The search through one file, message by message: what each read gives, and
//! what the search does with it.
use vstd::prelude::*;
use vstd::string::StringExecFns;
use vstd::utf8::encode_utf8;

use crate::format::{format_message, message_text};
use crate::grep::{GrepMatch, GrepOpts, SortBy};
use crate::message::Message;
use crate::output::{line_output, matches_output, write_grep_match, write_grep_matches};
use crate::pattern::{regex_is_match, Pattern};
use crate::sort::{
    indices_distinct, is_sorted_by, lemma_indices_distinct_permutation, lemma_sorted_unique,
    sort_matches,
};
use crate::text::{decimal, push_char, push_decimal};
use crate::timestamp::{
    TimestampKey, header_storage_key, message_monotonic_key, monotonic_timestamp, storage_timestamp,
};

verus! {

/// What reading the next message of a file gave.
pub enum ReadOutcome {
    /// A message.
    Item(Message),
    /// A message that a filter left out.
    FilteredOut,
    /// Bytes that do not form a valid message.
    Invalid,
    /// The input holds no further message.
    End,
    /// A message that could not be parsed; reading can go on after it.
    ParsingHickup,
    /// The input ended inside a message.
    IncompleteParse,
    /// Reading cannot go on; the description of the error.
    Unrecoverable(String),
}

/// What the search does after a read.
pub enum Flow {
    /// Read the next message.
    Continue,
    /// The file is done.
    Stop,
    /// The search of the file failed with this description.
    Fail(String),
}

/// Whether a message is emitted: it matches, or, inverted, it does not.
pub open spec fn emits(is_match: bool, invert: bool) -> bool {
    if invert {
        !is_match
    } else {
        is_match
    }
}


/// A match as a scan keeps it: message index, monotonic and storage sort
/// timestamps, and the text of the line.
pub open spec fn hit_of(m: GrepMatch) -> (u64, Option<TimestampKey>, Option<TimestampKey>, Seq<char>) {
    (m.index, m.monotonic_timestamp, m.storage_timestamp, m.line@)
}

/// Whether the scan goes on after a read: after a message or a read that is
/// skipped, not after the end of input or an error.
pub open spec fn read_goes_on(r: ReadOutcome) -> bool {
    match r {
        ReadOutcome::Item(_) | ReadOutcome::FilteredOut | ReadOutcome::Invalid
        | ReadOutcome::ParsingHickup => true,
        _ => false,
    }
}

/// A collecting scan (next index, number of matches, matches kept) after one
/// more read.
pub open spec fn collect_step(
    st: (int, int, Seq<(u64, Option<TimestampKey>, Option<TimestampKey>, Seq<char>)>),
    r: ReadOutcome,
    pattern: (Seq<char>, bool),
    opts: GrepOpts,
) -> (int, int, Seq<(u64, Option<TimestampKey>, Option<TimestampKey>, Seq<char>)>) {
    match r {
        ReadOutcome::Item(msg) => {
            let line = message_text(msg);
            let emit = emits(regex_is_match(pattern.0, pattern.1, line), opts.invert);
            (
                st.0 + 1,
                st.1 + if emit {
                    1int
                } else {
                    0int
                },
                if emit && !opts.count {
                    st.2.push(
                        (
                            st.0 as u64,
                            message_monotonic_key(msg),
                            header_storage_key(msg.storage_header),
                            line,
                        ),
                    )
                } else {
                    st.2
                },
            )
        },
        ReadOutcome::FilteredOut | ReadOutcome::Invalid | ReadOutcome::ParsingHickup => (
            st.0 + 1,
            st.1,
            st.2,
        ),
        _ => st,
    }
}

/// A collecting scan after the reads, up to the first that ends it.
pub open spec fn collect_reads(
    st: (int, int, Seq<(u64, Option<TimestampKey>, Option<TimestampKey>, Seq<char>)>),
    reads: Seq<ReadOutcome>,
    pattern: (Seq<char>, bool),
    opts: GrepOpts,
) -> (int, int, Seq<(u64, Option<TimestampKey>, Option<TimestampKey>, Seq<char>)>)
    decreases reads.len(),
{
    if reads.len() == 0 || !read_goes_on(reads[0]) {
        st
    } else {
        collect_reads(collect_step(st, reads[0], pattern, opts), reads.drop_first(), pattern, opts)
    }
}

/// A scan that writes matches out at once (next index, number of matches,
/// output) after one more read.
pub open spec fn stream_step(
    st: (int, int, Seq<u8>),
    r: ReadOutcome,
    pattern: (Seq<char>, bool),
    opts: GrepOpts,
    prefix: Seq<char>,
) -> (int, int, Seq<u8>) {
    match r {
        ReadOutcome::Item(msg) => {
            let line = message_text(msg);
            let emit = emits(regex_is_match(pattern.0, pattern.1, line), opts.invert);
            (
                st.0 + 1,
                st.1 + if emit {
                    1int
                } else {
                    0int
                },
                if emit && !opts.count {
                    st.2 + line_output(st.0 as u64, line, pattern, opts, prefix)
                } else {
                    st.2
                },
            )
        },
        ReadOutcome::FilteredOut | ReadOutcome::Invalid | ReadOutcome::ParsingHickup => (
            st.0 + 1,
            st.1,
            st.2,
        ),
        _ => st,
    }
}

/// A writing scan after the reads, up to the first that ends it.
pub open spec fn stream_reads(
    st: (int, int, Seq<u8>),
    reads: Seq<ReadOutcome>,
    pattern: (Seq<char>, bool),
    opts: GrepOpts,
    prefix: Seq<char>,
) -> (int, int, Seq<u8>)
    decreases reads.len(),
{
    if reads.len() == 0 || !read_goes_on(reads[0]) {
        st
    } else {
        stream_reads(
            stream_step(st, reads[0], pattern, opts, prefix),
            reads.drop_first(),
            pattern,
            opts,
            prefix,
        )
    }
}

/// The outputs of kept matches, in order.
pub open spec fn hits_output(
    hits: Seq<(u64, Option<TimestampKey>, Option<TimestampKey>, Seq<char>)>,
    pattern: (Seq<char>, bool),
    opts: GrepOpts,
    prefix: Seq<char>,
) -> Seq<u8>
    decreases hits.len(),
{
    if hits.len() == 0 {
        seq![]
    } else {
        hits_output(hits.drop_last(), pattern, opts, prefix) + line_output(
            hits.last().0,
            hits.last().3,
            pattern,
            opts,
            prefix,
        )
    }
}

/// The number of messages among the reads, up to the first that ends the scan.
pub open spec fn messages_read(reads: Seq<ReadOutcome>) -> int
    decreases reads.len(),
{
    if reads.len() == 0 || !read_goes_on(reads[0]) {
        0
    } else {
        (if reads[0] is Item {
            1int
        } else {
            0int
        }) + messages_read(reads.drop_first())
    }
}

/// The state of the search through one file.
pub struct FileScan {
    /// The index of the next message (counting every message read, those
    /// skipped included).
    pub index: u64,
    /// The number of emitted messages.
    pub matches: u64,
    /// The emitted messages, where they are collected.
    pub records: Vec<GrepMatch>,
    /// Where emitted messages are written out at once rather than collected:
    /// the prefix of their lines.
    pub stream_prefix: Option<String>,
}

impl FileScan {
    /// The invariant of the scan: no more matches than messages, no more
    /// records than matches, records in the order of their (earlier) messages.
    pub open spec fn wf(&self) -> bool {
        &&& self.matches <= self.index
        &&& self.records@.len() <= self.matches
        &&& forall|i: int| 0 <= i < self.records@.len() ==> #[trigger] self.records@[i].index < self.index
        &&& forall|i: int, j: int|
            0 <= i < j < self.records@.len() ==> #[trigger] self.records@[i].index
                < #[trigger] self.records@[j].index
    }

    /// A scan that collects the emitted messages with their timestamps.
    pub fn collecting() -> (scan: FileScan)
        ensures
            scan.wf(),
            scan.index == 0,
            scan.matches == 0,
            scan.records@.len() == 0,
            scan.stream_prefix is None,
    {
        FileScan { index: 0, matches: 0, records: Vec::new(), stream_prefix: None }
    }

    /// A scan that writes each emitted message out at once, after `prefix`.
    pub fn streaming(prefix: &str) -> (scan: FileScan)
        ensures
            scan.wf(),
            scan.index == 0,
            scan.matches == 0,
            scan.records@.len() == 0,
            scan.stream_prefix matches Some(p) && p@ == prefix@,
    {
        FileScan { index: 0, matches: 0, records: Vec::new(), stream_prefix: Some(String::from_str(prefix)) }
    }

    /// The scan that a search of a file for its output uses: it writes
    /// matches out at once where they keep file order and are not only
    /// counted, and collects them otherwise.
    pub fn for_grep_file(opts: &GrepOpts, prefix: &str) -> (scan: FileScan)
        ensures
            scan.wf(),
            scan.index == 0,
            scan.matches == 0,
            scan.records@.len() == 0,
            (opts.sort_by == SortBy::FileOrder && !opts.count) ==> (scan.stream_prefix matches Some(p) && p@ == prefix@),
            !(opts.sort_by == SortBy::FileOrder && !opts.count) ==> scan.stream_prefix is None,
    {
        if let SortBy::FileOrder = opts.sort_by {
            if !opts.count {
                return FileScan::streaming(prefix);
            }
        }
        FileScan::collecting()
    }

    /// Takes in message `msg`, rendered as `line`, where `is_match` says
    /// whether the pattern matches `line`: counts and keeps or writes it out
    /// where it is emitted, and moves on to the next index.
    pub fn accept(
        &mut self,
        msg: &Message,
        line: String,
        is_match: bool,
        pattern: &Pattern,
        opts: &GrepOpts,
        out: &mut Vec<u8>,
    )
        requires
            old(self).wf(),
            old(self).index < u64::MAX,
        ensures
            final(self).wf(),
            final(self).index == old(self).index + 1,
            final(self).stream_prefix == old(self).stream_prefix,
            final(self).matches == old(self).matches + (if emits(is_match, opts.invert) {
                1int
            } else {
                0int
            }),
            ({
                let record = emits(is_match, opts.invert) && !opts.count;
                match old(self).stream_prefix {
                    None => {
                        &&& final(out)@ == old(out)@
                        &&& record ==> {
                            &&& final(self).records@.len() == old(self).records@.len() + 1
                            &&& final(self).records@.drop_last() == old(self).records@
                            &&& final(self).records@.last().index == old(self).index
                            &&& final(self).records@.last().monotonic_timestamp
                                == message_monotonic_key(*msg)
                            &&& final(self).records@.last().storage_timestamp
                                == header_storage_key(msg.storage_header)
                            &&& final(self).records@.last().line@ == line@
                        }
                        &&& !record ==> final(self).records@ == old(self).records@
                    },
                    Some(prefix) => {
                        &&& final(self).records@ == old(self).records@
                        &&& record ==> final(out)@ == old(out)@ + line_output(
                            old(self).index,
                            line@,
                            pattern@,
                            *opts,
                            prefix@,
                        )
                        &&& !record ==> final(out)@ == old(out)@
                    },
                }
            }),
    {
        let emit = if opts.invert {
            !is_match
        } else {
            is_match
        };
        if emit {
            self.matches = self.matches + 1;
            if !opts.count {
                match &self.stream_prefix {
                    None => {
                        let record = GrepMatch {
                            index: self.index,
                            monotonic_timestamp: monotonic_timestamp(msg),
                            storage_timestamp: storage_timestamp(msg.storage_header.as_ref()),
                            line,
                        };
                        let ghost before = self.records@;
                        self.records.push(record);
                        assert(self.records@.drop_last() =~= before);
                    },
                    Some(prefix) => {
                        let record = GrepMatch {
                            index: self.index,
                            monotonic_timestamp: None,
                            storage_timestamp: None,
                            line,
                        };
                        write_grep_match(&record, pattern, opts, out, prefix.as_str());
                    },
                }
            }
        }
        self.index = self.index + 1;
    }

    /// Takes in the outcome of reading the next message: a message is
    /// rendered, matched against `pattern` and taken in; a message that was
    /// filtered out, is invalid or could not be parsed is skipped but counted
    /// in the index; the end of the input, or input that ends inside a
    /// message, ends the file; any other error fails the search.
    pub fn step(
        &mut self,
        outcome: ReadOutcome,
        pattern: &Pattern,
        opts: &GrepOpts,
        out: &mut Vec<u8>,
    ) -> (flow: Flow)
        requires
            old(self).wf(),
            old(self).index < u64::MAX,
        ensures
            final(self).wf(),
            final(self).stream_prefix == old(self).stream_prefix,
            (flow is Continue) == read_goes_on(outcome),
            old(self).stream_prefix is None ==> (
                final(self).index as int,
                final(self).matches as int,
                final(self).records@.map_values(|m: GrepMatch| hit_of(m)),
            ) == collect_step(
                (
                    old(self).index as int,
                    old(self).matches as int,
                    old(self).records@.map_values(|m: GrepMatch| hit_of(m)),
                ),
                outcome,
                pattern@,
                *opts,
            ),
            old(self).stream_prefix matches Some(p) ==> (
                final(self).index as int,
                final(self).matches as int,
                final(out)@,
            ) == stream_step(
                (old(self).index as int, old(self).matches as int, old(out)@),
                outcome,
                pattern@,
                *opts,
                p@,
            ),
            match outcome {
                ReadOutcome::Item(msg) => {
                    let line = message_text(msg);
                    let emit = emits(regex_is_match(pattern@.0, pattern@.1, line), opts.invert);
                    let record = emit && !opts.count;
                    &&& flow is Continue
                    &&& final(self).index == old(self).index + 1
                    &&& final(self).matches == old(self).matches + (if emit {
                        1int
                    } else {
                        0int
                    })
                    &&& match old(self).stream_prefix {
                        None => {
                            &&& final(out)@ == old(out)@
                            &&& record ==> {
                                &&& final(self).records@.len() == old(self).records@.len() + 1
                                &&& final(self).records@.drop_last() == old(self).records@
                                &&& final(self).records@.last().index == old(self).index
                                &&& final(self).records@.last().monotonic_timestamp
                                    == message_monotonic_key(msg)
                                &&& final(self).records@.last().storage_timestamp
                                    == header_storage_key(msg.storage_header)
                                &&& final(self).records@.last().line@ == line
                            }
                            &&& !record ==> final(self).records@ == old(self).records@
                        },
                        Some(prefix) => {
                            &&& final(self).records@ == old(self).records@
                            &&& record ==> final(out)@ == old(out)@ + line_output(
                                old(self).index,
                                line,
                                pattern@,
                                *opts,
                                prefix@,
                            )
                            &&& !record ==> final(out)@ == old(out)@
                        },
                    }
                },
                ReadOutcome::FilteredOut | ReadOutcome::Invalid | ReadOutcome::ParsingHickup => {
                    &&& flow is Continue
                    &&& final(self).index == old(self).index + 1
                    &&& final(self).matches == old(self).matches
                    &&& final(self).records@ == old(self).records@
                    &&& final(out)@ == old(out)@
                },
                ReadOutcome::End | ReadOutcome::IncompleteParse => {
                    &&& flow is Stop
                    &&& final(self).index == old(self).index
                    &&& final(self).matches == old(self).matches
                    &&& final(self).records@ == old(self).records@
                    &&& final(out)@ == old(out)@
                },
                ReadOutcome::Unrecoverable(e) => {
                    &&& flow matches Flow::Fail(f) && f@ == e@
                    &&& final(self).index == old(self).index
                    &&& final(self).matches == old(self).matches
                    &&& final(self).records@ == old(self).records@
                    &&& final(out)@ == old(out)@
                },
            },
    {
        let ghost old_records = self.records@;
        match outcome {
            ReadOutcome::Item(msg) => {
                let line = format_message(&msg);
                let is_match = pattern.is_match(line.as_str());
                self.accept(&msg, line, is_match, pattern, opts, out);
                proof {
                    if self.records@.len() == old_records.len() + 1 {
                        assert(self.records@.map_values(|m: GrepMatch| hit_of(m)) =~= old_records.map_values(
                            |m: GrepMatch| hit_of(m),
                        ).push(hit_of(self.records@.last())));
                    }
                }
                Flow::Continue
            },
            ReadOutcome::FilteredOut | ReadOutcome::Invalid | ReadOutcome::ParsingHickup => {
                self.index = self.index + 1;
                Flow::Continue
            },
            ReadOutcome::End | ReadOutcome::IncompleteParse => Flow::Stop,
            ReadOutcome::Unrecoverable(e) => Flow::Fail(e),
        }
    }

    /// Ends a search of a file for its output: where matches were written out
    /// at once, nothing is left to write; else writes their count, or writes
    /// them sorted under `opts.sort_by`. Returns the number of matches.
    pub fn finish_grep_file(
        self,
        pattern: &Pattern,
        opts: &GrepOpts,
        out: &mut Vec<u8>,
        prefix: &str,
    ) -> (matches: u64)
        ensures
            matches == self.matches,
            self.stream_prefix is Some ==> final(out)@ == old(out)@,
            self.stream_prefix is None ==> grep_file_output_spec(
                self.records@,
                self.matches,
                pattern@,
                *opts,
                prefix@,
                old(out)@,
                final(out)@,
            ),
    {
        let matches = self.matches;
        if self.stream_prefix.is_some() {
            return matches;
        }
        grep_file_output(self.records, matches, pattern, opts, out, prefix);
        matches
    }
}

/// What writing the collected matches of a file appends to `before`, giving
/// `after`: only the count, after the prefix, where matches are counted; else
/// the matches in sorted order.
pub open spec fn grep_file_output_spec(
    records: Seq<GrepMatch>,
    matches: u64,
    pattern: (Seq<char>, bool),
    opts: GrepOpts,
    prefix: Seq<char>,
    before: Seq<u8>,
    after: Seq<u8>,
) -> bool {
    if opts.count {
        after == before + encode_utf8(prefix + decimal(matches as nat) + seq!['\n'])
    } else if opts.sort_by == SortBy::FileOrder {
        after == before + matches_output(records, pattern, opts, prefix)
    } else {
        exists|sorted: Seq<GrepMatch>|
            sorted.to_multiset() == records.to_multiset() && is_sorted_by(sorted, opts.sort_by)
                && after == before + matches_output(sorted, pattern, opts, prefix)
    }
}

/// Writes the collected matches of a file: the count, after the prefix, where
/// only matches are counted; else the matches sorted under `opts.sort_by`.
pub fn grep_file_output(
    records: Vec<GrepMatch>,
    matches: u64,
    pattern: &Pattern,
    opts: &GrepOpts,
    out: &mut Vec<u8>,
    prefix: &str,
)
    ensures
        grep_file_output_spec(records@, matches, pattern@, *opts, prefix@, old(out)@, final(out)@),
{
    if opts.count {
        let mut line = String::from_str(prefix);
        push_decimal(&mut line, matches as u128);
        push_char(&mut line, '\n');
        assert(line@ =~= prefix@ + decimal(matches as nat) + seq!['\n']);
        let bytes = line.as_str().as_bytes();
        let mut i: usize = 0;
        while i < bytes.len()
            invariant
                i <= bytes@.len(),
                out@ == old(out)@ + bytes@.take(i as int),
            decreases bytes@.len() - i,
        {
            out.push(bytes[i]);
            assert(bytes@.take(i + 1) =~= bytes@.take(i as int).push(bytes@[i as int]));
            i += 1;
        }
        assert(bytes@.take(bytes@.len() as int) =~= bytes@);
    } else {
        let mut records = records;
        sort_matches(&mut records, opts.sort_by);
        write_grep_matches(records.as_slice(), pattern, opts, out, prefix);
    }
}

/// Inverting the match emits exactly the messages that are not emitted
/// otherwise.
pub proof fn lemma_invert_complements(is_match: bool)
    ensures
        emits(is_match, true) == !emits(is_match, false),
{
}

/// The output of a file's collected matches is determined by them, where no
/// two carry the same message index (as the scan keeps them).
pub proof fn lemma_grep_file_output_determined(
    records: Seq<GrepMatch>,
    matches: u64,
    pattern: (Seq<char>, bool),
    opts: GrepOpts,
    prefix: Seq<char>,
    before: Seq<u8>,
    after1: Seq<u8>,
    after2: Seq<u8>,
)
    requires
        indices_distinct(records),
        grep_file_output_spec(records, matches, pattern, opts, prefix, before, after1),
        grep_file_output_spec(records, matches, pattern, opts, prefix, before, after2),
    ensures
        after1 == after2,
{
    if !opts.count && opts.sort_by != SortBy::FileOrder {
        let s1 = choose|sorted: Seq<GrepMatch>|
            sorted.to_multiset() == records.to_multiset() && is_sorted_by(sorted, opts.sort_by)
                && after1 == before + matches_output(sorted, pattern, opts, prefix);
        let s2 = choose|sorted: Seq<GrepMatch>|
            sorted.to_multiset() == records.to_multiset() && is_sorted_by(sorted, opts.sort_by)
                && after2 == before + matches_output(sorted, pattern, opts, prefix);
        lemma_indices_distinct_permutation(records, s1);
        lemma_sorted_unique(s1, s2, opts.sort_by);
    }
}

/// The scan keeps the indices of its records distinct.
pub proof fn lemma_records_indices_distinct(scan: FileScan)
    requires
        scan.wf(),
    ensures
        indices_distinct(scan.records@),
{
}

/// Over a whole file, inverting the match splits the messages: the matches
/// of the plain and the inverted search together are the messages read, and
/// so are the matches they keep where they do not only count.
pub proof fn lemma_invert_splits_messages(
    reads: Seq<ReadOutcome>,
    pattern: (Seq<char>, bool),
    opts1: GrepOpts,
    opts2: GrepOpts,
    index: int,
    matches1: int,
    hits1: Seq<(u64, Option<TimestampKey>, Option<TimestampKey>, Seq<char>)>,
    matches2: int,
    hits2: Seq<(u64, Option<TimestampKey>, Option<TimestampKey>, Seq<char>)>,
)
    requires
        opts2.invert == !opts1.invert,
        opts2.count == opts1.count,
    ensures
        ({
            let c1 = collect_reads((index, matches1, hits1), reads, pattern, opts1);
            let c2 = collect_reads((index, matches2, hits2), reads, pattern, opts2);
            &&& c1.0 == c2.0
            &&& (c1.1 - matches1) + (c2.1 - matches2) == messages_read(reads)
            &&& !opts1.count ==> (c1.2.len() - hits1.len()) + (c2.2.len() - hits2.len())
                == messages_read(reads)
        }),
    decreases reads.len(),
{
    if reads.len() > 0 && read_goes_on(reads[0]) {
        let s1 = collect_step((index, matches1, hits1), reads[0], pattern, opts1);
        let s2 = collect_step((index, matches2, hits2), reads[0], pattern, opts2);
        lemma_invert_splits_messages(
            reads.drop_first(),
            pattern,
            opts1,
            opts2,
            index + 1,
            s1.1,
            s1.2,
            s2.1,
            s2.2,
        );
    }
}

proof fn lemma_hits_output_prepend(
    x: (u64, Option<TimestampKey>, Option<TimestampKey>, Seq<char>),
    t: Seq<(u64, Option<TimestampKey>, Option<TimestampKey>, Seq<char>)>,
    pattern: (Seq<char>, bool),
    opts: GrepOpts,
    prefix: Seq<char>,
)
    ensures
        hits_output(seq![x] + t, pattern, opts, prefix) == line_output(x.0, x.3, pattern, opts, prefix)
            + hits_output(t, pattern, opts, prefix),
    decreases t.len(),
{
    if t.len() == 0 {
        let e = Seq::<(u64, Option<TimestampKey>, Option<TimestampKey>, Seq<char>)>::empty();
        assert(seq![x] + t =~= seq![x]);
        assert(seq![x].drop_last() =~= e);
        assert(hits_output(e, pattern, opts, prefix) == Seq::<u8>::empty());
        assert(hits_output(seq![x], pattern, opts, prefix) =~= line_output(x.0, x.3, pattern, opts, prefix));
        assert(hits_output(t, pattern, opts, prefix) == Seq::<u8>::empty());
    } else {
        lemma_hits_output_prepend(x, t.drop_last(), pattern, opts, prefix);
        assert((seq![x] + t).drop_last() =~= seq![x] + t.drop_last());
        assert((seq![x] + t).last() == t.last());
    }
}

/// Over a whole file, writing matches out as they come gives the outputs of
/// the matches a collecting scan keeps, in file order, with the same index
/// and count.
pub proof fn lemma_stream_writes_collected(
    reads: Seq<ReadOutcome>,
    pattern: (Seq<char>, bool),
    opts: GrepOpts,
    prefix: Seq<char>,
    index: int,
    matches: int,
    hits: Seq<(u64, Option<TimestampKey>, Option<TimestampKey>, Seq<char>)>,
    out: Seq<u8>,
)
    ensures
        ({
            let c = collect_reads((index, matches, hits), reads, pattern, opts);
            let s = stream_reads((index, matches, out), reads, pattern, opts, prefix);
            &&& s.0 == c.0
            &&& s.1 == c.1
            &&& hits.len() <= c.2.len()
            &&& c.2.subrange(0, hits.len() as int) == hits
            &&& s.2 == out + hits_output(c.2.skip(hits.len() as int), pattern, opts, prefix)
        }),
    decreases reads.len(),
{
    let c = collect_reads((index, matches, hits), reads, pattern, opts);
    if reads.len() == 0 || !read_goes_on(reads[0]) {
        assert(hits.skip(hits.len() as int) =~= Seq::<(u64, Option<TimestampKey>, Option<TimestampKey>, Seq<char>)>::empty());
        assert(hits.subrange(0, hits.len() as int) =~= hits);
        assert(out + hits_output(c.2.skip(hits.len() as int), pattern, opts, prefix) =~= out);
    } else {
        let cs = collect_step((index, matches, hits), reads[0], pattern, opts);
        let ss = stream_step((index, matches, out), reads[0], pattern, opts, prefix);
        lemma_stream_writes_collected(reads.drop_first(), pattern, opts, prefix, cs.0, cs.1, cs.2, ss.2);
        if cs.2.len() == hits.len() + 1 {
            let x = cs.2.last();
            assert(cs.2 =~= hits.push(x));
            assert(c.2.subrange(0, hits.len() as int) =~= cs.2.subrange(0, cs.2.len() as int).subrange(
                0,
                hits.len() as int,
            ));
            assert(c.2.skip(hits.len() as int) =~= seq![x] + c.2.skip(cs.2.len() as int)) by {
                assert(c.2[hits.len() as int] == cs.2.subrange(0, cs.2.len() as int)[hits.len() as int]);
            }
            lemma_hits_output_prepend(x, c.2.skip(cs.2.len() as int), pattern, opts, prefix);
            assert(ss.2 == out + line_output(x.0, x.3, pattern, opts, prefix));
        } else {
            assert(cs.2 == hits);
            assert(ss.2 == out);
        }
    }
}

/// The matches a collecting scan keeps do not depend on the sort order.
pub proof fn lemma_collect_ignores_sort_order(
    st: (int, int, Seq<(u64, Option<TimestampKey>, Option<TimestampKey>, Seq<char>)>),
    reads: Seq<ReadOutcome>,
    pattern: (Seq<char>, bool),
    opts1: GrepOpts,
    opts2: GrepOpts,
)
    requires
        opts1.count == opts2.count,
        opts1.invert == opts2.invert,
    ensures
        collect_reads(st, reads, pattern, opts1) == collect_reads(st, reads, pattern, opts2),
    decreases reads.len(),
{
    if reads.len() > 0 && read_goes_on(reads[0]) {
        assert(collect_step(st, reads[0], pattern, opts1) == collect_step(st, reads[0], pattern, opts2));
        lemma_collect_ignores_sort_order(
            collect_step(st, reads[0], pattern, opts1),
            reads.drop_first(),
            pattern,
            opts1,
            opts2,
        );
    }
}

/// The outputs of matches are the outputs of what the scan keeps of them.
pub proof fn lemma_matches_output_hits(
    ms: Seq<GrepMatch>,
    pattern: (Seq<char>, bool),
    opts: GrepOpts,
    prefix: Seq<char>,
)
    ensures
        matches_output(ms, pattern, opts, prefix) == hits_output(
            ms.map_values(|m: GrepMatch| hit_of(m)),
            pattern,
            opts,
            prefix,
        ),
    decreases ms.len(),
{
    if ms.len() > 0 {
        lemma_matches_output_hits(ms.drop_last(), pattern, opts, prefix);
        assert(ms.map_values(|m: GrepMatch| hit_of(m)).drop_last() =~= ms.drop_last().map_values(
            |m: GrepMatch| hit_of(m),
        ));
    }
}

/// Whether `k` is the index of a message among the reads, the first read
/// having index `index`, up to the first read that ends the scan.
pub open spec fn is_message_index(index: int, reads: Seq<ReadOutcome>, k: int) -> bool
    decreases reads.len(),
{
    if reads.len() == 0 || !read_goes_on(reads[0]) {
        false
    } else {
        (reads[0] is Item && k == index) || is_message_index(index + 1, reads.drop_first(), k)
    }
}

/// Whether a kept match carries index `k`.
pub open spec fn has_index(
    hits: Seq<(u64, Option<TimestampKey>, Option<TimestampKey>, Seq<char>)>,
    k: int,
) -> bool {
    exists|j: int| 0 <= j < hits.len() && hits[j].0 as int == k
}

proof fn lemma_has_index_prepend(
    x: (u64, Option<TimestampKey>, Option<TimestampKey>, Seq<char>),
    t: Seq<(u64, Option<TimestampKey>, Option<TimestampKey>, Seq<char>)>,
    k: int,
)
    ensures
        has_index(seq![x] + t, k) == (x.0 as int == k || has_index(t, k)),
{
    let s = seq![x] + t;
    if has_index(s, k) {
        let j = choose|j: int| 0 <= j < s.len() && s[j].0 as int == k;
        if j > 0 {
            assert(t[j - 1] == s[j]);
        }
    }
    if has_index(t, k) {
        let j = choose|j: int| 0 <= j < t.len() && t[j].0 as int == k;
        assert(s[j + 1] == t[j]);
    }
    if x.0 as int == k {
        assert(s[0] == x);
    }
}

proof fn lemma_message_index_bound(index: int, reads: Seq<ReadOutcome>, k: int)
    requires
        is_message_index(index, reads, k),
    ensures
        index <= k,
    decreases reads.len(),
{
    if !(reads[0] is Item && k == index) {
        lemma_message_index_bound(index + 1, reads.drop_first(), k);
    }
}

/// Over a whole file, the plain and the inverted search that keep their
/// matches keep each message exactly once between them: every message index
/// is kept by one of them and by no more than one, and they keep no other.
pub proof fn lemma_invert_splits_indices(
    reads: Seq<ReadOutcome>,
    pattern: (Seq<char>, bool),
    opts1: GrepOpts,
    opts2: GrepOpts,
    index: int,
    matches1: int,
    hits1: Seq<(u64, Option<TimestampKey>, Option<TimestampKey>, Seq<char>)>,
    matches2: int,
    hits2: Seq<(u64, Option<TimestampKey>, Option<TimestampKey>, Seq<char>)>,
)
    requires
        opts2.invert == !opts1.invert,
        !opts1.count,
        !opts2.count,
        0 <= index,
        index + reads.len() <= u64::MAX,
    ensures
        ({
            let n1 = collect_reads((index, matches1, hits1), reads, pattern, opts1).2.skip(
                hits1.len() as int,
            );
            let n2 = collect_reads((index, matches2, hits2), reads, pattern, opts2).2.skip(
                hits2.len() as int,
            );
            &&& forall|k: int|
                (has_index(n1, k) || has_index(n2, k)) == is_message_index(index, reads, k)
            &&& forall|k: int| !(has_index(n1, k) && has_index(n2, k))
            &&& forall|k: int| has_index(n1, k) ==> index <= k
            &&& forall|k: int| has_index(n2, k) ==> index <= k
        }),
    decreases reads.len(),
{
    let c1 = collect_reads((index, matches1, hits1), reads, pattern, opts1);
    let c2 = collect_reads((index, matches2, hits2), reads, pattern, opts2);
    let n1 = c1.2.skip(hits1.len() as int);
    let n2 = c2.2.skip(hits2.len() as int);
    lemma_stream_writes_collected(reads, pattern, opts1, seq![], index, matches1, hits1, seq![]);
    lemma_stream_writes_collected(reads, pattern, opts2, seq![], index, matches2, hits2, seq![]);
    if reads.len() == 0 || !read_goes_on(reads[0]) {
        assert(n1.len() == 0);
        assert(n2.len() == 0);
    } else {
        let s1 = collect_step((index, matches1, hits1), reads[0], pattern, opts1);
        let s2 = collect_step((index, matches2, hits2), reads[0], pattern, opts2);
        lemma_invert_splits_indices(
            reads.drop_first(),
            pattern,
            opts1,
            opts2,
            index + 1,
            s1.1,
            s1.2,
            s2.1,
            s2.2,
        );
        lemma_stream_writes_collected(reads.drop_first(), pattern, opts1, seq![], s1.0, s1.1, s1.2, seq![]);
        lemma_stream_writes_collected(reads.drop_first(), pattern, opts2, seq![], s2.0, s2.1, s2.2, seq![]);
        let m1 = c1.2.skip(s1.2.len() as int);
        let m2 = c2.2.skip(s2.2.len() as int);
        assert(c1 == collect_reads(s1, reads.drop_first(), pattern, opts1));
        assert(c2 == collect_reads(s2, reads.drop_first(), pattern, opts2));
        if s1.2.len() == hits1.len() + 1 {
            assert(n1 =~= seq![s1.2.last()] + m1) by {
                assert(c1.2[hits1.len() as int] == c1.2.subrange(0, s1.2.len() as int)[hits1.len() as int]);
            }
        } else {
            assert(s1.2 == hits1);
            assert(n1 == m1);
        }
        if s2.2.len() == hits2.len() + 1 {
            assert(n2 =~= seq![s2.2.last()] + m2) by {
                assert(c2.2[hits2.len() as int] == c2.2.subrange(0, s2.2.len() as int)[hits2.len() as int]);
            }
        } else {
            assert(s2.2 == hits2);
            assert(n2 == m2);
        }
        assert forall|k: int|
            (has_index(n1, k) || has_index(n2, k)) == is_message_index(index, reads, k)
                && !(has_index(n1, k) && has_index(n2, k)) && (has_index(n1, k) ==> index <= k) && (
            has_index(n2, k) ==> index <= k) by {
            if s1.2.len() == hits1.len() + 1 {
                lemma_has_index_prepend(s1.2.last(), m1, k);
            }
            if s2.2.len() == hits2.len() + 1 {
                lemma_has_index_prepend(s2.2.last(), m2, k);
            }
        }
    }
}

} // verus!
