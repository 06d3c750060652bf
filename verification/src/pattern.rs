//! The search pattern: a regular expression of the `regex` crate, kept with
//! the text and flag it was built from.
use vstd::prelude::*;
use vstd::string::StringExecFns;
use vstd::utf8::encode_utf8;

verus! {

/// Declares `regex::Regex`; its values are carried unopened.
#[verifier::external_type_specification]
#[verifier::external_body]
pub struct ExRegex(regex::Regex);

/// Declares `regex::Error`; its values are carried unopened.
#[verifier::external_type_specification]
#[verifier::external_body]
pub struct ExRegexError(regex::Error);

/// Whether `regex::RegexBuilder` accepts `pattern` with the given
/// case-insensitivity flag.
pub uninterp spec fn regex_builds(pattern: Seq<char>, case_insensitive: bool) -> bool;

/// Whether the regular expression built from `pattern` and the flag matches
/// somewhere in `haystack`.
pub uninterp spec fn regex_is_match(
    pattern: Seq<char>,
    case_insensitive: bool,
    haystack: Seq<char>,
) -> bool;

/// The byte ranges (start, end) of the successive non-overlapping matches of
/// the regular expression built from `pattern` and the flag in `haystack`.
pub uninterp spec fn regex_match_spans(
    pattern: Seq<char>,
    case_insensitive: bool,
    haystack: Seq<char>,
) -> Seq<(usize, usize)>;

/// Whether the spans lie, in order and without overlap, inside a text of `len`
/// bytes: each starts no later than it ends, and ends no later than the next
/// one starts.
pub open spec fn spans_well_formed(spans: Seq<(usize, usize)>, len: int) -> bool {
    &&& forall|i: int| 0 <= i < spans.len() ==> #[trigger] spans[i].0 <= spans[i].1 <= len
    &&& forall|i: int| 0 <= i < spans.len() - 1 ==> #[trigger] spans[i].1 <= spans[i + 1].0
}

/// Calls `regex::RegexBuilder::new(pattern).case_insensitive(..).build()`.
/// Claims that whether it succeeds depends on the pattern text and the flag
/// alone; what the built regex matches is claimed by the methods of `Pattern`.
#[verifier::external_body]
fn build_regex(pattern: &str, case_insensitive: bool) -> (built: Result<
    regex::Regex,
    regex::Error,
>)
    ensures
        built.is_ok() == regex_builds(pattern@, case_insensitive),
{
    regex::RegexBuilder::new(pattern).case_insensitive(case_insensitive).build()
}

/// A pattern that was refused, with the `regex` crate's description of why.
#[derive(Debug)]
pub struct PatternError {
    pub message: String,
}

/// A compiled search pattern.
pub struct Pattern {
    source: String,
    case_insensitive: bool,
    regex: regex::Regex,
}

impl View for Pattern {
    type V = (Seq<char>, bool);

    /// The pattern text and the case-insensitivity flag it was built from.
    closed spec fn view(&self) -> (Seq<char>, bool) {
        (self.source@, self.case_insensitive)
    }
}

impl Pattern {
    /// Compiles `source`, case-insensitively where `case_insensitive` is set.
    pub fn new(source: &str, case_insensitive: bool) -> (pattern: Result<Pattern, PatternError>)
        ensures
            pattern.is_ok() == regex_builds(source@, case_insensitive),
            pattern matches Ok(p) ==> p@ == (source@, case_insensitive),
    {
        match build_regex(source, case_insensitive) {
            Ok(regex) => Ok(
                Pattern { source: String::from_str(source), case_insensitive, regex },
            ),
            Err(e) => Err(PatternError { message: e.to_string() }),
        }
    }

    /// Calls `regex::Regex::is_match` on the regex built from this pattern.
    /// Claims that the answer depends on the pattern text, the flag and the
    /// haystack alone.
    #[verifier::external_body]
    pub(crate) fn is_match(&self, haystack: &str) -> (found: bool)
        ensures
            found == regex_is_match(self@.0, self@.1, haystack@),
    {
        self.regex.is_match(haystack)
    }

    /// Calls `regex::Regex::find_iter` and collects the byte offsets of each
    /// match. Claims that they depend on the pattern text, the flag and the
    /// haystack alone, and what the crate documents of them: each match starts
    /// no later than it ends, lies inside the haystack, and the matches are
    /// successive and do not overlap.
    #[verifier::external_body]
    pub(crate) fn match_spans(&self, haystack: &str) -> (spans: Vec<(usize, usize)>)
        ensures
            spans@ == regex_match_spans(self@.0, self@.1, haystack@),
            spans_well_formed(spans@, encode_utf8(haystack@).len() as int),
    {
        let mut spans = Vec::new();
        for m in self.regex.find_iter(haystack) {
            spans.push((m.start(), m.end()));
        }
        spans
    }
}

} // verus!
