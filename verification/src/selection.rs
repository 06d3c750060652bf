//! Which files a search covers: the roots to start from, and which files found
//! there are searched.
use vstd::prelude::*;
use vstd::string::StrSliceExecFns;
use vstd::string::StringExecFns;

verus! {

/// The character `c` with ASCII upper-case letters made lower-case.
pub open spec fn ascii_lower(c: char) -> char {
    if 65 <= (c as u32) <= 90 {
        ((c as u32) + 32) as char
    } else {
        c
    }
}

/// Whether `name` ends in `suffix`, ignoring ASCII case, with at least one
/// character before it.
pub open spec fn ends_with_ignoring_ascii_case(name: Seq<char>, suffix: Seq<char>) -> bool {
    &&& name.len() > suffix.len()
    &&& forall|i: int|
        0 <= i < suffix.len() ==> ascii_lower(#[trigger] name[name.len() - suffix.len() + i])
            == ascii_lower(suffix[i])
}

/// Whether a file name names a DLT file: it ends, ignoring ASCII case, in
/// `.dlt`, `.dlt.gz` or `.dlt.zst`, after at least one other character.
pub open spec fn is_dlt_file_name(name: Seq<char>) -> bool {
    ends_with_ignoring_ascii_case(name, ".dlt"@) || ends_with_ignoring_ascii_case(name, ".dlt.gz"@)
        || ends_with_ignoring_ascii_case(name, ".dlt.zst"@)
}

fn ascii_lowercase(c: char) -> (lower: char)
    ensures
        lower == ascii_lower(c),
{
    let code = c as u32;
    if 65 <= code && code <= 90 {
        ((code as u8) + 32) as char
    } else {
        c
    }
}

fn ends_with_ignoring_case(name: &str, suffix: &str) -> (ends: bool)
    ensures
        ends == ends_with_ignoring_ascii_case(name@, suffix@),
{
    let n = name.unicode_len();
    let k = suffix.unicode_len();
    if n <= k {
        return false;
    }
    let mut i: usize = 0;
    while i < k
        invariant
            n == name@.len(),
            k == suffix@.len(),
            n > k,
            i <= k,
            forall|j: int|
                0 <= j < i ==> ascii_lower(#[trigger] name@[n - k + j]) == ascii_lower(suffix@[j]),
        decreases k - i,
    {
        if ascii_lowercase(name.get_char(n - k + i)) != ascii_lowercase(suffix.get_char(i)) {
            return false;
        }
        i += 1;
    }
    true
}

/// Whether a file name names a DLT file.
pub fn is_dlt_name(name: &str) -> (dlt: bool)
    ensures
        dlt == is_dlt_file_name(name@),
{
    ends_with_ignoring_case(name, ".dlt") || ends_with_ignoring_case(name, ".dlt.gz")
        || ends_with_ignoring_case(name, ".dlt.zst")
}

/// Whether an entry named `name` is searched: it must be a file, and either
/// a path given by the user, or found under a directory and named as a DLT
/// file.
pub fn is_searched(name: &str, given_root: bool, is_file: bool) -> (searched: bool)
    ensures
        searched == (is_file && (given_root || is_dlt_file_name(name@))),
{
    is_file && (given_root || is_dlt_name(name))
}

/// The paths a search starts from: those given, or the current directory
/// where none is.
pub fn search_roots(given: Vec<String>) -> (roots: Vec<String>)
    ensures
        given@.len() == 0 ==> roots@.len() == 1 && roots@[0]@ == "."@,
        given@.len() > 0 ==> roots@ == given@,
{
    if given.len() == 0 {
        let mut roots: Vec<String> = Vec::new();
        roots.push(String::from_str("."));
        roots
    } else {
        given
    }
}

} // verus!
