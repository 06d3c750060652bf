//! The order of matches: by sort timestamp, matches without one last, then by
//! message index.
use vstd::prelude::*;

use std::cmp::Ordering;

use crate::grep::{sort_key_of, GrepMatch, SortBy};
use crate::timestamp::TimestampKey;

verus! {

/// Whether timestamp `a` is earlier than timestamp `b`: by seconds, then by
/// microseconds.
pub open spec fn key_earlier(a: TimestampKey, b: TimestampKey) -> bool {
    a.seconds < b.seconds || (a.seconds == b.seconds && a.microseconds < b.microseconds)
}

/// Whether optional timestamp `a` sorts before `b`: present timestamps by time,
/// and every present timestamp before an absent one.
pub open spec fn optional_key_before(a: Option<TimestampKey>, b: Option<TimestampKey>) -> bool {
    match (a, b) {
        (Some(a), Some(b)) => key_earlier(a, b),
        (Some(_), None) => true,
        _ => false,
    }
}

/// Whether match `a` may stand before match `b` under `sort_by`: its sort
/// timestamp sorts before `b`'s, or the two are equal and its index is not
/// greater.
pub open spec fn match_le(a: GrepMatch, b: GrepMatch, sort_by: SortBy) -> bool {
    optional_key_before(sort_key_of(a, sort_by), sort_key_of(b, sort_by)) || (sort_key_of(
        a,
        sort_by,
    ) == sort_key_of(b, sort_by) && a.index <= b.index)
}

/// Three-way comparison of optional timestamps: present ones by time, absent
/// ones after every present one.
pub fn cmp_optional_timestamp(a: Option<TimestampKey>, b: Option<TimestampKey>) -> (order:
    Ordering)
    ensures
        (order == Ordering::Less) == optional_key_before(a, b),
        (order == Ordering::Equal) == (a == b),
        (order == Ordering::Greater) == optional_key_before(b, a),
{
    match (a, b) {
        (Some(a), Some(b)) => {
            if a.seconds < b.seconds {
                Ordering::Less
            } else if a.seconds > b.seconds {
                Ordering::Greater
            } else if a.microseconds < b.microseconds {
                Ordering::Less
            } else if a.microseconds > b.microseconds {
                Ordering::Greater
            } else {
                Ordering::Equal
            }
        },
        (Some(_), None) => Ordering::Less,
        (None, Some(_)) => Ordering::Greater,
        (None, None) => Ordering::Equal,
    }
}

/// Whether match `a` must stand after match `b` under `sort_by`.
pub fn match_after(a: &GrepMatch, b: &GrepMatch, sort_by: SortBy) -> (after: bool)
    ensures
        after == !match_le(*a, *b, sort_by),
{
    match cmp_optional_timestamp(a.sort_key(sort_by), b.sort_key(sort_by)) {
        Ordering::Less => false,
        Ordering::Equal => a.index > b.index,
        Ordering::Greater => true,
    }
}

/// Any two matches are ordered one way or the other.
pub proof fn lemma_match_le_total(a: GrepMatch, b: GrepMatch, sort_by: SortBy)
    ensures
        match_le(a, b, sort_by) || match_le(b, a, sort_by),
{
}

/// The order of matches is transitive.
pub proof fn lemma_match_le_transitive(a: GrepMatch, b: GrepMatch, c: GrepMatch, sort_by: SortBy)
    requires
        match_le(a, b, sort_by),
        match_le(b, c, sort_by),
    ensures
        match_le(a, c, sort_by),
{
}

/// Two matches ordered both ways have the same sort timestamp and index.
pub proof fn lemma_match_le_antisymmetric(a: GrepMatch, b: GrepMatch, sort_by: SortBy)
    requires
        match_le(a, b, sort_by),
        match_le(b, a, sort_by),
    ensures
        sort_key_of(a, sort_by) == sort_key_of(b, sort_by),
        a.index == b.index,
{
}

/// Of two optional timestamps, exactly one sorts first, or they are equal.
pub proof fn lemma_optional_key_trichotomy(a: Option<TimestampKey>, b: Option<TimestampKey>)
    ensures
        optional_key_before(a, b) || a == b || optional_key_before(b, a),
        !(optional_key_before(a, b) && optional_key_before(b, a)),
        a == b ==> !optional_key_before(a, b),
{
}

} // verus!
