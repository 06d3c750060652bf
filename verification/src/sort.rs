//! Stable merge sort of matches by timestamp, then index.
use vstd::prelude::*;
use vstd::multiset::Multiset;

use crate::grep::{GrepMatch, SortBy};
use crate::order::{lemma_match_le_total, lemma_match_le_transitive, match_after, match_le};

verus! {

broadcast use vstd::seq_lib::group_to_multiset_ensures;

/// Whether the matches are in order under `sort_by`.
pub open spec fn is_sorted_by(s: Seq<GrepMatch>, sort_by: SortBy) -> bool {
    forall|i: int, j: int| 0 <= i < j < s.len() ==> match_le(#[trigger] s[i], #[trigger] s[j], sort_by)
}

/// Whether the matches are in reverse order under `sort_by`.
spec fn is_sorted_descending(s: Seq<GrepMatch>, sort_by: SortBy) -> bool {
    forall|i: int, j: int| 0 <= i < j < s.len() ==> match_le(#[trigger] s[j], #[trigger] s[i], sort_by)
}

/// Whether matches `a` and `b` are ordered both ways under `sort_by`: same
/// sort timestamp and same index.
pub open spec fn tied(a: GrepMatch, b: GrepMatch, sort_by: SortBy) -> bool {
    match_le(a, b, sort_by) && match_le(b, a, sort_by)
}

/// The predicate of being tied with `m`.
pub open spec fn tied_with(m: GrepMatch, sort_by: SortBy) -> spec_fn(GrepMatch) -> bool {
    |x: GrepMatch| tied(x, m, sort_by)
}

/// The matches of `s` that are tied with `m`, in their order in `s`.
pub open spec fn ties(s: Seq<GrepMatch>, m: GrepMatch, sort_by: SortBy) -> Seq<GrepMatch> {
    s.filter(tied_with(m, sort_by))
}

proof fn lemma_ties_push(s: Seq<GrepMatch>, x: GrepMatch, m: GrepMatch, sort_by: SortBy)
    ensures
        ties(s.push(x), m, sort_by) == (if tied(x, m, sort_by) {
            ties(s, m, sort_by).push(x)
        } else {
            ties(s, m, sort_by)
        }),
{
    s.lemma_filter_push(x, tied_with(m, sort_by));
}

proof fn lemma_ties_prepend(x: GrepMatch, s: Seq<GrepMatch>, m: GrepMatch, sort_by: SortBy)
    ensures
        ties(seq![x] + s, m, sort_by) == (if tied(x, m, sort_by) {
            seq![x]
        } else {
            Seq::<GrepMatch>::empty()
        }) + ties(s, m, sort_by),
{
    s.lemma_filter_prepend(x, tied_with(m, sort_by));
}

proof fn lemma_ties_none(s: Seq<GrepMatch>, m: GrepMatch, sort_by: SortBy)
    requires
        forall|i: int| 0 <= i < s.len() ==> !tied(#[trigger] s[i], m, sort_by),
    ensures
        ties(s, m, sort_by).len() == 0,
    decreases s.len(),
{
    if s.len() == 0 {
        reveal(Seq::filter);
    } else {
        let rest = s.drop_last();
        assert(s =~= rest.push(s.last()));
        assert forall|i: int| 0 <= i < rest.len() implies !tied(#[trigger] rest[i], m, sort_by) by {
            assert(rest[i] == s[i]);
        }
        lemma_ties_none(rest, m, sort_by);
        lemma_ties_push(rest, s.last(), m, sort_by);
    }
}

proof fn lemma_ties_add(a: Seq<GrepMatch>, b: Seq<GrepMatch>, m: GrepMatch, sort_by: SortBy)
    ensures
        ties(a + b, m, sort_by) == ties(a, m, sort_by) + ties(b, m, sort_by),
{
    Seq::filter_distributes_over_add(a, b, tied_with(m, sort_by));
}

proof fn lemma_sorted_prefix(s: Seq<GrepMatch>, n: int, sort_by: SortBy)
    requires
        is_sorted_by(s, sort_by),
        0 <= n <= s.len(),
    ensures
        is_sorted_by(s.subrange(0, n), sort_by),
{
    assert forall|i: int, j: int| 0 <= i < j < n implies match_le(
        #[trigger] s.subrange(0, n)[i],
        #[trigger] s.subrange(0, n)[j],
        sort_by,
    ) by {
        assert(s.subrange(0, n)[i] == s[i]);
        assert(s.subrange(0, n)[j] == s[j]);
    }
}

/// Merges two sorted vectors into one sorted vector that holds the elements of
/// both; of two elements that are ordered both ways, those of `left` come
/// first.
fn merge(left: Vec<GrepMatch>, right: Vec<GrepMatch>, sort_by: SortBy) -> (merged: Vec<
    GrepMatch,
>)
    requires
        is_sorted_by(left@, sort_by),
        is_sorted_by(right@, sort_by),
    ensures
        merged@.to_multiset() == left@.to_multiset().add(right@.to_multiset()),
        is_sorted_by(merged@, sort_by),
        forall|m: GrepMatch| #[trigger] ties(merged@, m, sort_by) == ties(left@, m, sort_by) + ties(right@, m, sort_by),
{
    let mut a = left;
    let mut b = right;
    let mut descending: Vec<GrepMatch> = Vec::new();
    let ghost total = left@.to_multiset().add(right@.to_multiset());
    let ghost mut tail: Seq<GrepMatch> = Seq::empty();
    proof {
        assert forall|m: GrepMatch| #[trigger] ties(tail, m, sort_by) == ties(left@.skip(a@.len() as int), m, sort_by) + ties(right@.skip(b@.len() as int), m, sort_by) by {
            assert(left@.skip(a@.len() as int) =~= Seq::<GrepMatch>::empty());
            assert(right@.skip(b@.len() as int) =~= Seq::<GrepMatch>::empty());
            lemma_ties_none(tail, m, sort_by);
            lemma_ties_none(Seq::<GrepMatch>::empty(), m, sort_by);
            assert(ties(tail, m, sort_by) =~= Seq::<GrepMatch>::empty());
        }
    }
    while a.len() > 0 || b.len() > 0
        invariant
            a@.len() <= left@.len(),
            b@.len() <= right@.len(),
            a@ == left@.take(a@.len() as int),
            b@ == right@.take(b@.len() as int),
            tail.len() == descending@.len(),
            forall|k: int| 0 <= k < descending@.len() ==> #[trigger] descending@[k] == tail[tail.len() - 1 - k],
            forall|m: GrepMatch| #[trigger] ties(tail, m, sort_by) == ties(left@.skip(a@.len() as int), m, sort_by) + ties(right@.skip(b@.len() as int), m, sort_by),
            forall|m: GrepMatch| ties(#[trigger] left@.skip(a@.len() as int), m, sort_by).len() > 0 ==> ties(b@, m, sort_by).len() == 0,
            is_sorted_by(a@, sort_by),
            is_sorted_by(b@, sort_by),
            is_sorted_descending(descending@, sort_by),
            descending@.to_multiset().add(a@.to_multiset()).add(b@.to_multiset()) == total,
            forall|i: int, j: int|
                0 <= i < descending@.len() && 0 <= j < a@.len() ==> match_le(
                    #[trigger] a@[j],
                    #[trigger] descending@[i],
                    sort_by,
                ),
            forall|i: int, j: int|
                0 <= i < descending@.len() && 0 <= j < b@.len() ==> match_le(
                    #[trigger] b@[j],
                    #[trigger] descending@[i],
                    sort_by,
                ),
        decreases a@.len() + b@.len(),
    {
        let take_left = if a.len() == 0 {
            false
        } else if b.len() == 0 {
            true
        } else {
            match_after(&a[a.len() - 1], &b[b.len() - 1], sort_by)
        };
        let ghost old_a = a@;
        let ghost old_b = b@;
        let ghost old_desc = descending@;
        if take_left {
            let x = a.pop().unwrap();
            proof {
                assert(old_a == a@.push(x));
                if old_b.len() > 0 {
                    lemma_match_le_total(x, old_b.last(), sort_by);
                }
                assert forall|j: int| 0 <= j < b@.len() implies match_le(#[trigger] b@[j], x, sort_by) by {
                    if j < b@.len() - 1 {
                        lemma_match_le_transitive(b@[j], b@.last(), x, sort_by);
                    }
                }
                assert forall|j: int| 0 <= j < a@.len() implies match_le(#[trigger] a@[j], x, sort_by) by {
                    assert(old_a[j] == a@[j]);
                }
            }
            descending.push(x);
            proof {
                assert(descending@ == old_desc.push(x));
                assert(descending@.to_multiset().add(a@.to_multiset()).add(b@.to_multiset()) =~= old_desc.to_multiset().add(old_a.to_multiset()).add(old_b.to_multiset()));
                lemma_sorted_prefix(old_a, old_a.len() - 1, sort_by);
                assert(a@ == old_a.subrange(0, old_a.len() - 1));
                let old_tail = tail;
                tail = seq![x] + old_tail;
                assert forall|k: int| 0 <= k < descending@.len() implies #[trigger] descending@[k] == tail[tail.len() - 1 - k] by {
                    if k < old_desc.len() {
                        assert(descending@[k] == old_desc[k]);
                    }
                }
                let la = left@.skip(a@.len() as int);
                let old_la = left@.skip(old_a.len() as int);
                assert(la =~= seq![x] + old_la);
                assert(a@ =~= left@.take(a@.len() as int));
                assert forall|m: GrepMatch| #[trigger] ties(tail, m, sort_by) == ties(left@.skip(a@.len() as int), m, sort_by) + ties(right@.skip(b@.len() as int), m, sort_by) by {
                    lemma_ties_prepend(x, old_tail, m, sort_by);
                    lemma_ties_prepend(x, old_la, m, sort_by);
                    assert(ties(old_tail, m, sort_by) == ties(old_la, m, sort_by) + ties(right@.skip(b@.len() as int), m, sort_by));
                }
                assert forall|m: GrepMatch| ties(#[trigger] left@.skip(a@.len() as int), m, sort_by).len() > 0 implies ties(b@, m, sort_by).len() == 0 by {
                    lemma_ties_prepend(x, old_la, m, sort_by);
                    if tied(x, m, sort_by) {
                        assert forall|j: int| 0 <= j < b@.len() implies !tied(#[trigger] b@[j], m, sort_by) by {
                            if tied(b@[j], m, sort_by) {
                                lemma_match_le_transitive(x, m, b@[j], sort_by);
                                if j < b@.len() - 1 {
                                    lemma_match_le_transitive(x, b@[j], b@.last(), sort_by);
                                }
                                assert(match_le(x, b@.last(), sort_by));
                            }
                        }
                        lemma_ties_none(b@, m, sort_by);
                    } else {
                        assert(ties(old_la, m, sort_by).len() > 0);
                    }
                }
            }
        } else {
            let x = b.pop().unwrap();
            proof {
                assert(old_b == b@.push(x));
                assert forall|j: int| 0 <= j < a@.len() implies match_le(#[trigger] a@[j], x, sort_by) by {
                    if j < a@.len() - 1 {
                        lemma_match_le_transitive(a@[j], a@.last(), x, sort_by);
                    }
                }
                assert forall|j: int| 0 <= j < b@.len() implies match_le(#[trigger] b@[j], x, sort_by) by {
                    assert(old_b[j] == b@[j]);
                }
            }
            descending.push(x);
            proof {
                assert(descending@ == old_desc.push(x));
                assert(descending@.to_multiset().add(a@.to_multiset()).add(b@.to_multiset()) =~= old_desc.to_multiset().add(old_a.to_multiset()).add(old_b.to_multiset()));
                lemma_sorted_prefix(old_b, old_b.len() - 1, sort_by);
                assert(b@ == old_b.subrange(0, old_b.len() - 1));
                let old_tail = tail;
                tail = seq![x] + old_tail;
                assert forall|k: int| 0 <= k < descending@.len() implies #[trigger] descending@[k] == tail[tail.len() - 1 - k] by {
                    if k < old_desc.len() {
                        assert(descending@[k] == old_desc[k]);
                    }
                }
                let rb = right@.skip(b@.len() as int);
                let old_rb = right@.skip(old_b.len() as int);
                let la = left@.skip(a@.len() as int);
                assert(rb =~= seq![x] + old_rb);
                assert(b@ =~= right@.take(b@.len() as int));
                assert forall|m: GrepMatch| #[trigger] ties(tail, m, sort_by) == ties(left@.skip(a@.len() as int), m, sort_by) + ties(right@.skip(b@.len() as int), m, sort_by) by {
                    lemma_ties_prepend(x, old_tail, m, sort_by);
                    lemma_ties_prepend(x, old_rb, m, sort_by);
                    lemma_ties_push(b@, x, m, sort_by);
                    assert(ties(old_tail, m, sort_by) == ties(la, m, sort_by) + ties(old_rb, m, sort_by));
                    if tied(x, m, sort_by) {
                        assert(ties(old_b, m, sort_by).len() > 0);
                        assert(ties(la, m, sort_by).len() == 0);
                        assert(ties(la, m, sort_by) =~= Seq::<GrepMatch>::empty());
                        assert(ties(tail, m, sort_by) =~= ties(la, m, sort_by) + ties(rb, m, sort_by));
                    } else {
                        assert(ties(tail, m, sort_by) =~= ties(la, m, sort_by) + ties(rb, m, sort_by));
                    }
                }
                assert forall|m: GrepMatch| ties(#[trigger] left@.skip(a@.len() as int), m, sort_by).len() > 0 implies ties(b@, m, sort_by).len() == 0 by {
                    lemma_ties_push(b@, x, m, sort_by);
                    assert(ties(old_b, m, sort_by).len() == 0);
                }
            }
        }
    }
    assert(a@.to_multiset() =~= Multiset::empty());
    assert(b@.to_multiset() =~= Multiset::empty());
    assert(descending@.to_multiset() =~= total);
    assert forall|m: GrepMatch| #[trigger] ties(tail, m, sort_by) == ties(left@, m, sort_by) + ties(right@, m, sort_by) by {
        assert(left@.skip(a@.len() as int) =~= left@);
        assert(right@.skip(b@.len() as int) =~= right@);
        assert(ties(tail, m, sort_by) == ties(left@.skip(a@.len() as int), m, sort_by) + ties(right@.skip(b@.len() as int), m, sort_by));
    }
    let mut merged: Vec<GrepMatch> = Vec::new();
    let ghost n = descending@.len();
    let ghost full = descending@;
    while descending.len() > 0
        invariant
            descending@ == full.subrange(0, n - merged@.len()),
            merged@.len() <= n,
            n == full.len(),
            is_sorted_descending(full, sort_by),
            forall|k: int| 0 <= k < merged@.len() ==> #[trigger] merged@[k] == full[n - 1 - k],
            merged@.to_multiset().add(descending@.to_multiset()) == total,
            full.to_multiset() == total,
            tail.len() == n,
            forall|k: int| 0 <= k < n ==> #[trigger] full[k] == tail[n - 1 - k],
        decreases descending@.len(),
    {
        let ghost old_desc = descending@;
        let ghost old_merged = merged@;
        let x = descending.pop().unwrap();
        merged.push(x);
        proof {
            assert(old_desc == descending@.push(x));
            assert(merged@ == old_merged.push(x));
            assert(merged@.to_multiset().add(descending@.to_multiset()) =~= old_merged.to_multiset().add(old_desc.to_multiset()));
        }
    }
    assert(merged@.to_multiset() =~= total);
    assert(merged@ =~= tail) by {
        assert forall|k: int| 0 <= k < n implies merged@[k] == tail[k] by {
            assert(merged@[k] == full[n - 1 - k]);
            assert(full[n - 1 - k] == tail[n - 1 - (n - 1 - k)]);
        }
    }
    assert forall|m: GrepMatch| #[trigger] ties(merged@, m, sort_by) == ties(left@, m, sort_by) + ties(right@, m, sort_by) by {
        assert(ties(tail, m, sort_by) == ties(left@, m, sort_by) + ties(right@, m, sort_by));
    }
    assert forall|i: int, j: int| 0 <= i < j < merged@.len() implies match_le(
        #[trigger] merged@[i],
        #[trigger] merged@[j],
        sort_by,
    ) by {
        assert(merged@[i] == full[n - 1 - i]);
        assert(merged@[j] == full[n - 1 - j]);
    }
    merged
}

/// Sorts the matches under `sort_by`.
fn merge_sort(v: Vec<GrepMatch>, sort_by: SortBy) -> (sorted: Vec<GrepMatch>)
    ensures
        sorted@.to_multiset() == v@.to_multiset(),
        is_sorted_by(sorted@, sort_by),
        forall|m: GrepMatch| #[trigger] ties(sorted@, m, sort_by) == ties(v@, m, sort_by),
    decreases v@.len(),
{
    if v.len() <= 1 {
        return v;
    }
    let mut left = v;
    let ghost whole = left@;
    let mid = left.len() / 2;
    let right = left.split_off(mid);
    proof {
        assert(whole =~= left@ + right@);
        vstd::seq_lib::lemma_multiset_commutative(left@, right@);
    }
    let ghost left_view = left@;
    let ghost right_view = right@;
    let left = merge_sort(left, sort_by);
    let right = merge_sort(right, sort_by);
    let merged = merge(left, right, sort_by);
    proof {
        assert forall|m: GrepMatch| #[trigger] ties(merged@, m, sort_by) == ties(whole, m, sort_by) by {
            lemma_ties_add(left_view, right_view, m, sort_by);
            assert(ties(left@, m, sort_by) == ties(left_view, m, sort_by));
            assert(ties(right@, m, sort_by) == ties(right_view, m, sort_by));
        }
    }
    merged
}

/// Sorts the matches by `sort_by`'s timestamp, matches without one last, ties
/// by message index; matches with the same timestamp and index keep their
/// relative order. Leaves them in place where `sort_by` is `SortBy::FileOrder`.
pub fn sort_matches(matches: &mut Vec<GrepMatch>, sort_by: SortBy)
    ensures
        sort_by == SortBy::FileOrder ==> final(matches)@ == old(matches)@,
        sort_by != SortBy::FileOrder ==> final(matches)@.to_multiset() == old(matches)@.to_multiset(),
        sort_by != SortBy::FileOrder ==> is_sorted_by(final(matches)@, sort_by),
        sort_by != SortBy::FileOrder ==> forall|m: GrepMatch| #[trigger] ties(final(matches)@, m, sort_by) == ties(old(matches)@, m, sort_by),
{
    if let SortBy::FileOrder = sort_by {
        return;
    }
    let mut all: Vec<GrepMatch> = Vec::new();
    std::mem::swap(&mut all, matches);
    let sorted = merge_sort(all, sort_by);
    *matches = sorted;
}

/// Whether no two matches carry the same message index.
pub open spec fn indices_distinct(s: Seq<GrepMatch>) -> bool {
    forall|i: int, j: int| 0 <= i < j < s.len() ==> #[trigger] s[i].index != #[trigger] s[j].index
}

proof fn lemma_index_of_contained(s: Seq<GrepMatch>, x: GrepMatch) -> (k: int)
    requires
        s.to_multiset().count(x) > 0,
    ensures
        0 <= k < s.len(),
        s[k] == x,
{
    assert(s.contains(x));
    choose|k: int| 0 <= k < s.len() && s[k] == x
}

/// Matches in sorted order are determined by the matches alone, where no two
/// of them carry the same message index: two sorted arrangements of the same
/// matches are the same sequence.
pub proof fn lemma_sorted_unique(s1: Seq<GrepMatch>, s2: Seq<GrepMatch>, sort_by: SortBy)
    requires
        s1.to_multiset() == s2.to_multiset(),
        is_sorted_by(s1, sort_by),
        is_sorted_by(s2, sort_by),
        indices_distinct(s1),
    ensures
        s1 == s2,
    decreases s1.len(),
{
    assert(s1.len() == s1.to_multiset().len());
    assert(s2.len() == s2.to_multiset().len());
    if s1.len() > 0 {
        let a = s1[0];
        let b = s2[0];
        assert(s2.to_multiset().count(b) > 0) by {
            assert(s2.contains(b));
        }
        assert(s1.to_multiset().count(a) > 0) by {
            assert(s1.contains(a));
        }
        let j = lemma_index_of_contained(s1, b);
        let k = lemma_index_of_contained(s2, a);
        if j > 0 {
            assert(match_le(s1[0], s1[j], sort_by));
        }
        if k > 0 {
            assert(match_le(s2[0], s2[k], sort_by));
        }
        assert(a.index == b.index);
        assert(j == 0);
        assert(a == b);
        assert(s1 =~= seq![a] + s1.drop_first());
        assert(s2 =~= seq![a] + s2.drop_first());
        vstd::seq_lib::lemma_multiset_commutative(seq![a], s1.drop_first());
        vstd::seq_lib::lemma_multiset_commutative(seq![a], s2.drop_first());
        assert(s1.drop_first().to_multiset() =~= s2.drop_first().to_multiset()) by {
            assert(seq![a].to_multiset().add(s1.drop_first().to_multiset()) == seq![a].to_multiset().add(
                s2.drop_first().to_multiset(),
            ));
            assert forall|x: GrepMatch| #[trigger] s1.drop_first().to_multiset().count(x)
                == s2.drop_first().to_multiset().count(x) by {
                assert(seq![a].to_multiset().add(s1.drop_first().to_multiset()).count(x)
                    == seq![a].to_multiset().add(s2.drop_first().to_multiset()).count(x));
            }
        }
        assert(is_sorted_by(s1.drop_first(), sort_by)) by {
            assert forall|i: int, j: int| 0 <= i < j < s1.drop_first().len() implies match_le(
                #[trigger] s1.drop_first()[i],
                #[trigger] s1.drop_first()[j],
                sort_by,
            ) by {
                assert(s1.drop_first()[i] == s1[i + 1]);
                assert(s1.drop_first()[j] == s1[j + 1]);
            }
        }
        assert(is_sorted_by(s2.drop_first(), sort_by)) by {
            assert forall|i: int, j: int| 0 <= i < j < s2.drop_first().len() implies match_le(
                #[trigger] s2.drop_first()[i],
                #[trigger] s2.drop_first()[j],
                sort_by,
            ) by {
                assert(s2.drop_first()[i] == s2[i + 1]);
                assert(s2.drop_first()[j] == s2[j + 1]);
            }
        }
        assert(indices_distinct(s1.drop_first())) by {
            assert forall|i: int, j: int| 0 <= i < j < s1.drop_first().len() implies #[trigger] s1.drop_first()[i].index
                != #[trigger] s1.drop_first()[j].index by {
                assert(s1.drop_first()[i] == s1[i + 1]);
                assert(s1.drop_first()[j] == s1[j + 1]);
            }
        }
        lemma_sorted_unique(s1.drop_first(), s2.drop_first(), sort_by);
    }
}

/// Rearranging matches keeps their indices distinct.
pub proof fn lemma_indices_distinct_permutation(s: Seq<GrepMatch>, t: Seq<GrepMatch>)
    requires
        indices_distinct(s),
        s.to_multiset() == t.to_multiset(),
    ensures
        indices_distinct(t),
{
    assert forall|i: int, j: int| 0 <= i < j < t.len() implies #[trigger] t[i].index
        != #[trigger] t[j].index by {
        if t[i].index == t[j].index {
            assert(t.to_multiset().count(t[i]) > 0) by {
                assert(t.contains(t[i]));
            }
            assert(t.to_multiset().count(t[j]) > 0) by {
                assert(t.contains(t[j]));
            }
            let a = lemma_index_of_contained(s, t[i]);
            let b = lemma_index_of_contained(s, t[j]);
            assert(a == b);
            assert(t[i] == t[j]);
            // The same match twice in t means twice in s.
            assert(t.to_multiset().count(t[i]) >= 2) by {
                lemma_count_two(t, i, j);
            }
            lemma_count_at_most_one(s, t[i]);
            assert(false);
        }
    }
}

proof fn lemma_count_two(t: Seq<GrepMatch>, i: int, j: int)
    requires
        0 <= i < j < t.len(),
        t[i] == t[j],
    ensures
        t.to_multiset().count(t[i]) >= 2,
{
    let x = t[i];
    assert(t =~= t.subrange(0, j) + seq![x] + t.subrange(j + 1, t.len() as int));
    vstd::seq_lib::lemma_multiset_commutative(t.subrange(0, j) + seq![x], t.subrange(j + 1, t.len() as int));
    vstd::seq_lib::lemma_multiset_commutative(t.subrange(0, j), seq![x]);
    assert(t.subrange(0, j)[i] == x);
    assert(t.subrange(0, j).contains(x));
    assert(t.subrange(0, j).to_multiset().count(x) >= 1);
    assert(seq![x].to_multiset().count(x) == 1) by {
        assert(seq![x] =~= Seq::<GrepMatch>::empty().push(x));
    }
}

proof fn lemma_count_at_most_one(s: Seq<GrepMatch>, x: GrepMatch)
    requires
        indices_distinct(s),
    ensures
        s.to_multiset().count(x) <= 1,
    decreases s.len(),
{
    if s.len() > 0 {
        let rest = s.drop_last();
        assert(s =~= rest.push(s.last()));
        assert(indices_distinct(rest)) by {
            assert forall|i: int, j: int| 0 <= i < j < rest.len() implies #[trigger] rest[i].index
                != #[trigger] rest[j].index by {
                assert(rest[i] == s[i]);
                assert(rest[j] == s[j]);
            }
        }
        lemma_count_at_most_one(rest, x);
        if x == s.last() {
            assert(!rest.contains(x)) by {
                if rest.contains(x) {
                    let k = choose|k: int| 0 <= k < rest.len() && rest[k] == x;
                    assert(s[k] == s[s.len() - 1]);
                    assert(s[k].index == s[s.len() - 1].index);
                    assert(k < s.len() - 1);
                }
            }
            assert(rest.to_multiset().count(x) == 0);
        }
    }
}

} // verus!
