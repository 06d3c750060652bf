//! Output lines of matches, as UTF-8 bytes.
use vstd::prelude::*;
use vstd::string::StringExecFns;
use vstd::utf8::{encode_scalar, encode_utf8};

use crate::grep::{GrepMatch, GrepOpts};
use crate::pattern::{regex_match_spans, spans_well_formed, Pattern};
use crate::text::{all_digits, decimal, digits_value, lemma_decimal_reads_back, push_char, push_decimal};
use crate::{COLOR_LINENO, COLOR_MATCH, COLOR_RESET};

verus! {

/// Where the last span ends; 0 where there is none.
pub open spec fn spans_end(spans: Seq<(usize, usize)>) -> int {
    if spans.len() == 0 {
        0
    } else {
        spans.last().1 as int
    }
}

/// The bytes up to the end of the last span, with every span wrapped in the
/// match colour.
pub open spec fn marked_bytes(bytes: Seq<u8>, spans: Seq<(usize, usize)>) -> Seq<u8>
    decreases spans.len(),
{
    if spans.len() == 0 {
        seq![]
    } else {
        let before = spans.drop_last();
        let span = spans.last();
        marked_bytes(bytes, before) + bytes.subrange(spans_end(before), span.0 as int)
            + encode_utf8(COLOR_MATCH@) + bytes.subrange(span.0 as int, span.1 as int)
            + encode_utf8(COLOR_RESET@)
    }
}

/// The bytes with every span wrapped in the match colour.
pub open spec fn highlighted_bytes(bytes: Seq<u8>, spans: Seq<(usize, usize)>) -> Seq<u8> {
    marked_bytes(bytes, spans) + bytes.subrange(spans_end(spans), bytes.len() as int)
}

/// The text in front of a match's line: the prefix, then, where indices are
/// shown, the message index (in the line-number colour where highlighting)
/// and a colon.
pub open spec fn line_head(index: u64, opts: GrepOpts, prefix: Seq<char>) -> Seq<char> {
    if opts.line_number {
        if opts.highlight {
            prefix + COLOR_LINENO@ + decimal(index as nat) + COLOR_RESET@ + seq![':']
        } else {
            prefix + decimal(index as nat) + seq![':']
        }
    } else {
        prefix
    }
}

/// The output of the match of message `index` with text `line`: its head, its
/// line (with the pattern's matches highlighted where highlighting applies and
/// the match is not inverted) and a newline.
pub open spec fn line_output(
    index: u64,
    line: Seq<char>,
    pattern: (Seq<char>, bool),
    opts: GrepOpts,
    prefix: Seq<char>,
) -> Seq<u8> {
    encode_utf8(line_head(index, opts, prefix)) + (if opts.highlight && !opts.invert {
        highlighted_bytes(encode_utf8(line), regex_match_spans(pattern.0, pattern.1, line))
    } else {
        encode_utf8(line)
    }) + seq![10u8]
}

/// The output of one match.
pub open spec fn match_output(
    m: GrepMatch,
    pattern: (Seq<char>, bool),
    opts: GrepOpts,
    prefix: Seq<char>,
) -> Seq<u8> {
    line_output(m.index, m.line@, pattern, opts, prefix)
}

/// The outputs of the matches, in order.
pub open spec fn matches_output(
    ms: Seq<GrepMatch>,
    pattern: (Seq<char>, bool),
    opts: GrepOpts,
    prefix: Seq<char>,
) -> Seq<u8>
    decreases ms.len(),
{
    if ms.len() == 0 {
        seq![]
    } else {
        matches_output(ms.drop_last(), pattern, opts, prefix) + match_output(
            ms.last(),
            pattern,
            opts,
            prefix,
        )
    }
}

/// Appends `bytes[from..to]`.
fn push_range(out: &mut Vec<u8>, bytes: &[u8], from: usize, to: usize)
    requires
        from <= to <= bytes@.len(),
    ensures
        final(out)@ == old(out)@ + bytes@.subrange(from as int, to as int),
{
    let mut i = from;
    while i < to
        invariant
            from <= i <= to <= bytes@.len(),
            out@ == old(out)@ + bytes@.subrange(from as int, i as int),
        decreases to - i,
    {
        out.push(bytes[i]);
        assert(bytes@.subrange(from as int, i + 1) =~= bytes@.subrange(from as int, i as int).push(
            bytes@[i as int],
        ));
        i += 1;
    }
}

/// Appends all of `bytes`.
fn push_all(out: &mut Vec<u8>, bytes: &[u8])
    ensures
        final(out)@ == old(out)@ + bytes@,
{
    push_range(out, bytes, 0, bytes.len());
    assert(bytes@.subrange(0, bytes@.len() as int) =~= bytes@);
}

/// Appends `bytes` with every span wrapped in the match colour.
pub fn write_highlighted(bytes: &[u8], spans: &Vec<(usize, usize)>, out: &mut Vec<u8>)
    requires
        spans_well_formed(spans@, bytes@.len() as int),
    ensures
        final(out)@ == old(out)@ + highlighted_bytes(bytes@, spans@),
{
    let mut last: usize = 0;
    let mut i: usize = 0;
    while i < spans.len()
        invariant
            i <= spans@.len(),
            spans_well_formed(spans@, bytes@.len() as int),
            last == spans_end(spans@.take(i as int)),
            last <= bytes@.len(),
            i < spans@.len() ==> last <= spans@[i as int].0,
            out@ == old(out)@ + marked_bytes(bytes@, spans@.take(i as int)),
        decreases spans@.len() - i,
    {
        let (start, end) = spans[i];
        push_range(out, bytes, last, start);
        push_all(out, COLOR_MATCH.as_bytes());
        push_range(out, bytes, start, end);
        push_all(out, COLOR_RESET.as_bytes());
        assert(spans@.take(i + 1).drop_last() =~= spans@.take(i as int));
        last = end;
        i += 1;
    }
    assert(spans@.take(spans@.len() as int) =~= spans@);
    push_range(out, bytes, last, bytes.len());
}

/// Appends `line` with every match of `pattern` wrapped in the match colour.
pub fn highlight_matches(line: &str, pattern: &Pattern, out: &mut Vec<u8>)
    ensures
        final(out)@ == old(out)@ + highlighted_bytes(
            encode_utf8(line@),
            regex_match_spans(pattern@.0, pattern@.1, line@),
        ),
        spans_well_formed(
            regex_match_spans(pattern@.0, pattern@.1, line@),
            encode_utf8(line@).len() as int,
        ),
{
    let spans = pattern.match_spans(line);
    write_highlighted(line.as_bytes(), &spans, out);
}

/// Appends the output of one match.
pub fn write_grep_match(
    m: &GrepMatch,
    pattern: &Pattern,
    opts: &GrepOpts,
    out: &mut Vec<u8>,
    prefix: &str,
)
    ensures
        final(out)@ == old(out)@ + match_output(*m, pattern@, *opts, prefix@),
{
    let mut head = String::from_str(prefix);
    if opts.line_number {
        if opts.highlight {
            head.append(COLOR_LINENO);
            push_decimal(&mut head, m.index as u128);
            head.append(COLOR_RESET);
        } else {
            push_decimal(&mut head, m.index as u128);
        }
        push_char(&mut head, ':');
    }
    assert(head@ == line_head(m.index, *opts, prefix@));
    let ghost start = out@;
    push_all(out, head.as_str().as_bytes());
    let ghost after_head = out@;
    if opts.highlight && !opts.invert {
        highlight_matches(m.line.as_str(), pattern, out);
    } else {
        push_all(out, m.line.as_str().as_bytes());
    }
    let ghost body = out@.subrange(after_head.len() as int, out@.len() as int);
    assert(out@ =~= after_head + body);
    out.push(10u8);
    assert(out@ =~= start + (encode_utf8(line_head(m.index, *opts, prefix@)) + body + seq![10u8]));
}

/// Appends the outputs of the matches, in order.
pub fn write_grep_matches(
    matches: &[GrepMatch],
    pattern: &Pattern,
    opts: &GrepOpts,
    out: &mut Vec<u8>,
    prefix: &str,
)
    ensures
        final(out)@ == old(out)@ + matches_output(matches@, pattern@, *opts, prefix@),
{
    let mut i: usize = 0;
    while i < matches.len()
        invariant
            i <= matches@.len(),
            out@ == old(out)@ + matches_output(matches@.take(i as int), pattern@, *opts, prefix@),
        decreases matches@.len() - i,
    {
        write_grep_match(&matches[i], pattern, opts, out, prefix);
        assert(matches@.take(i + 1).drop_last() =~= matches@.take(i as int));
        i += 1;
    }
    assert(matches@.take(matches@.len() as int) =~= matches@);
}

/// A line in which the pattern does not match is written as it is.
pub proof fn lemma_highlight_without_matches(bytes: Seq<u8>)
    ensures
        highlighted_bytes(bytes, Seq::<(usize, usize)>::empty()) == bytes,
{
    assert(bytes.subrange(0, bytes.len() as int) =~= bytes);
    assert(marked_bytes(bytes, Seq::<(usize, usize)>::empty()) + bytes =~= bytes);
}


/// The UTF-8 encoding of two texts one after the other is the encoding of the
/// first followed by that of the second.
pub proof fn lemma_encode_utf8_concat(a: Seq<char>, b: Seq<char>)
    ensures
        encode_utf8(a + b) == encode_utf8(a) + encode_utf8(b),
    decreases a.len(),
{
    if a.len() == 0 {
        assert(a + b =~= b);
        assert(encode_utf8(a) =~= Seq::<u8>::empty());
        assert(encode_utf8(a) + encode_utf8(b) =~= encode_utf8(b));
    } else {
        lemma_encode_utf8_concat(a.drop_first(), b);
        assert((a + b).drop_first() =~= a.drop_first() + b);
        assert((a + b)[0] == a[0]);
        assert(encode_scalar(a[0] as u32) + (encode_utf8(a.drop_first()) + encode_utf8(b))
            =~= (encode_scalar(a[0] as u32) + encode_utf8(a.drop_first())) + encode_utf8(b));
    }
}

/// Every output line of a match begins with the caller's prefix, whatever the
/// options: it is the prefix followed by the line the match gives without a
/// prefix, and it ends with a newline. Where indices are shown uncoloured, the
/// head after the prefix is the digits of the index and a colon.
pub proof fn lemma_line_output_prefix(
    index: u64,
    line: Seq<char>,
    pattern: (Seq<char>, bool),
    opts: GrepOpts,
    prefix: Seq<char>,
)
    ensures
        line_head(index, opts, prefix) == prefix + line_head(index, opts, seq![]),
        line_output(index, line, pattern, opts, prefix) == encode_utf8(prefix) + line_output(
            index,
            line,
            pattern,
            opts,
            seq![],
        ),
        line_output(index, line, pattern, opts, prefix).take(encode_utf8(prefix).len() as int)
            == encode_utf8(prefix),
        line_output(index, line, pattern, opts, prefix).last() == 10u8,
        !opts.line_number ==> line_head(index, opts, prefix) == prefix,
        opts.line_number && !opts.highlight ==> {
            let head = line_head(index, opts, seq![]);
            &&& head.last() == ':'
            &&& all_digits(head.drop_last())
            &&& digits_value(head.drop_last()) == index
        },
{
    lemma_decimal_reads_back(index as nat);
    if opts.line_number && !opts.highlight {
        assert(line_head(index, opts, seq![]).drop_last() =~= decimal(index as nat));
    }
    let rest = line_head(index, opts, seq![]);
    assert(line_head(index, opts, prefix) =~= prefix + rest);
    lemma_encode_utf8_concat(prefix, rest);
    let body = if opts.highlight && !opts.invert {
        highlighted_bytes(encode_utf8(line), regex_match_spans(pattern.0, pattern.1, line))
    } else {
        encode_utf8(line)
    };
    let out = line_output(index, line, pattern, opts, prefix);
    assert(out == encode_utf8(prefix + rest) + body + seq![10u8]);
    assert(out =~= encode_utf8(prefix) + (encode_utf8(rest) + body + seq![10u8]));
    assert(line_output(index, line, pattern, opts, seq![]) == encode_utf8(rest) + body + seq![
        10u8,
    ]);
    assert(out.take(encode_utf8(prefix).len() as int) =~= encode_utf8(prefix));
}
} // verus!
