//! Facts about the classification that hold of every hand.
use vstd::prelude::*;
use vstd::multiset::Multiset;
use crate::card::{Card, Suit};
use crate::hand_result::{
    HandResult, ResultName, classify, compare_results, flush_over, four_rank_from, has_strength, has_suit, is_paired, kind_result,
    last_straight_end, lemma_sorted_permutes, rank_count, run_length, sorted_below, straight_of_sorted,
    strength_sorted, strengths, suit_at, wheel_possible,
};

verus! {

broadcast use vstd::seq_lib::group_filter_ensures, vstd::seq_lib::group_to_multiset_ensures,
    vstd::seq::Seq::lemma_filter_contains_rev, vstd::seq::Seq::lemma_filter_push,
    vstd::multiset::group_multiset_axioms;

/// Holds when some card of `s` has a rank of strength `r`.
pub open spec fn holds_rank(s: Seq<Card>, r: int) -> bool {
    exists|i: int| 0 <= i < s.len() && #[trigger] s[i].strength() == r
}

/// Holds when `s` holds the five ranks of strengths `lo` to `lo + 4`.
pub open spec fn five_from(s: Seq<Card>, lo: int) -> bool {
    holds_rank(s, lo) && holds_rank(s, lo + 1) && holds_rank(s, lo + 2) && holds_rank(s, lo + 3)
        && holds_rank(s, lo + 4)
}

/// Holds when `s` holds five consecutive ranks, the Ace counting also below the Two.
pub open spec fn five_in_a_row(s: Seq<Card>) -> bool {
    (exists|lo: int| 2 <= lo <= 10 && #[trigger] five_from(s, lo)) || (holds_rank(s, 14)
        && holds_rank(s, 2) && holds_rank(s, 3) && holds_rank(s, 4) && holds_rank(s, 5))
}

/// A card of the sort is a card of the hand.
proof fn lemma_sorted_contains(s: Seq<Card>, i: int)
    requires
        0 <= i < strength_sorted(s).len(),
    ensures
        s.contains(strength_sorted(s)[i]),
{
    lemma_sorted_permutes(s);
    let t = strength_sorted(s);
    assert(t.contains(t[i]));
    assert(t.to_multiset().count(t[i]) > 0);
}

/// The cards below strength `r`, sorted, come in non-decreasing strength, all below `r`.
proof fn lemma_sorted_below_ordered(s: Seq<Card>, r: int)
    ensures
        forall|i: int| 0 <= i < sorted_below(s, r).len() ==> #[trigger] sorted_below(s, r)[i].strength() < r,
        forall|i: int, j: int|
            0 <= i <= j < sorted_below(s, r).len() ==> #[trigger] sorted_below(s, r)[i].strength()
                <= #[trigger] sorted_below(s, r)[j].strength(),
    decreases r,
{
    if r > 2 {
        lemma_sorted_below_ordered(s, r - 1);
        let a = sorted_below(s, r - 1);
        let b = s.filter(has_strength(r - 1));
        assert(sorted_below(s, r) == a + b);
        assert forall|i: int| 0 <= i < b.len() implies #[trigger] b[i].strength() == r - 1 by {
            assert(has_strength(r - 1)(b[i]));
        }
    }
}

/// The last card of the sort has the highest strength in the hand.
proof fn lemma_sorted_last_is_highest(s: Seq<Card>)
    requires
        s.len() > 0,
    ensures
        strength_sorted(s).len() == s.len(),
        s.contains(strength_sorted(s).last()),
        forall|c: Card| s.contains(c) ==> c.strength() <= strength_sorted(s).last().strength(),
{
    lemma_sorted_permutes(s);
    lemma_sorted_below_ordered(s, 15);
    let t = strength_sorted(s);
    lemma_sorted_contains(s, t.len() - 1);
    assert forall|c: Card| s.contains(c) implies c.strength() <= t.last().strength() by {
        assert(s.to_multiset().count(c) > 0);
        assert(t.contains(c));
        let j = choose|j: int| 0 <= j < t.len() && t[j] == c;
        assert(t[j].strength() <= t[t.len() - 1].strength());
    }
}

/// A run of length `m` ending at `i` climbs by one at each step back to its start; a run
/// longer than the prefix comes from the wheel.
proof fn lemma_run_shape(v: Seq<int>, i: int)
    requires
        0 <= i < v.len(),
    ensures
        forall|k: int| 0 <= k <= i && k < run_length(v, i) ==> #[trigger] v[i - k] == v[i] - k,
        run_length(v, i) >= 1,
        run_length(v, i) <= i + 1 || (wheel_possible(v) && run_length(v, i) == i + 2),
    decreases i,
{
    if i > 0 {
        lemma_run_shape(v, i - 1);
        if v[i] == v[i - 1] + 1 {
            assert forall|k: int| 0 <= k <= i && k < run_length(v, i) implies #[trigger] v[i - k] == v[i] - k by {
                if k > 0 {
                    assert(v[(i - 1) - (k - 1)] == v[i - 1] - (k - 1));
                }
            }
        }
    }
}

/// A straight found by the scan means five consecutive ranks.
proof fn lemma_straight_has_five(s: Seq<Card>)
    requires
        s.len() > 0,
        straight_of_sorted(strength_sorted(s)).result == ResultName::Straight,
    ensures
        five_in_a_row(s),
{
    let t = strength_sorted(s);
    lemma_sorted_permutes(s);
    let v = strengths(t);
    let i = lemma_straight_end_found(v, t.len() as int);
    lemma_run_shape(v, i);
    assert forall|j: int| 0 <= j < t.len() implies holds_rank(s, #[trigger] v[j]) by {
        lemma_sorted_contains(s, j);
        let m = choose|m: int| 0 <= m < s.len() && s[m] == t[j];
        assert(s[m].strength() == v[j]);
    }
    assert forall|j: int| 0 <= j < t.len() implies 2 <= #[trigger] v[j] <= 14 by {
        assert(v[j] == t[j].strength());
    }
    if run_length(v, i) <= i + 1 {
        let lo = v[i] - 4;
        assert(v[i - 4] == v[i] - 4);
        assert(v[i - 3] == v[i] - 3);
        assert(v[i - 2] == v[i] - 2);
        assert(v[i - 1] == v[i] - 1);
        assert(v[i - 0] == v[i] - 0);
        assert(five_from(s, lo));
    } else {
        assert(v[i - i] == v[i] - i);
        assert(v[0] == 2);
        assert(v[i - (i - 1)] == v[i] - (i - 1));
        assert(v[i - (i - 2)] == v[i] - (i - 2));
        assert(v[i - (i - 3)] == v[i] - (i - 3));
        assert(v[t.len() - 1] == 14);
    }
}

/// Where the scan reports a straight, it ends at a valid index whose run is five or more.
proof fn lemma_straight_end_found(v: Seq<int>, k: int) -> (i: int)
    requires
        last_straight_end(v, k) is Some,
        k <= v.len(),
    ensures
        last_straight_end(v, k) == Some(i),
        0 <= i < k,
        run_length(v, i) >= 5,
    decreases k,
{
    if run_length(v, k - 1) >= 5 {
        k - 1
    } else {
        lemma_straight_end_found(v, k - 1)
    }
}

/// The flush detector's card is a card of the hand, and it reports HighCard when no suit
/// holds five cards.
proof fn lemma_flush_over_facts(s: Seq<Card>, k: int)
    requires
        s.len() > 0,
    ensures
        s.contains(flush_over(s, k).highest),
        (forall|su: Suit| #[trigger] s.filter(has_suit(su)).len() < 5) ==> flush_over(s, k).result
            == ResultName::HighCard,
    decreases k,
{
    if k > 0 {
        lemma_flush_over_facts(s, k - 1);
        let g = s.filter(has_suit(suit_at(k - 1)));
        if g.len() >= 5 {
            lemma_sorted_permutes(g);
            lemma_sorted_contains(g, g.len() - 1);
            assert(g.contains(strength_sorted(g).last()));
        }
    } else {
        assert(s.contains(s[0]));
    }
}

/// The of-a-kind detector's card is a card of the hand, and it reports HighCard when no
/// rank is held by two cards.
proof fn lemma_kind_facts(s: Seq<Card>)
    requires
        s.len() > 0,
    ensures
        s.contains(kind_result(s).highest),
        (forall|r: int| #[trigger] rank_count(s, r) <= 1) ==> kind_result(s).result
            == ResultName::HighCard,
{
    assert(s.contains(s[0]));
    match lemma_four_rank_found(s, 14) {
        Some(r) => {
            let g = s.filter(has_strength(r));
            assert(g.contains(g[0]));
        },
        None => {
            let p = s.filter(is_paired(s));
            let t = strength_sorted(p);
            lemma_sorted_permutes(p);
            if t.len() > 0 {
                lemma_sorted_contains(p, t.len() - 1);
            }
            if forall|r: int| #[trigger] rank_count(s, r) <= 1 {
                s.lemma_all_neg_filter_empty(is_paired(s));
            }
        },
    }
}

/// The rank that the four-of-a-kind search finds is held by four cards.
proof fn lemma_four_rank_found(s: Seq<Card>, r: int) -> (found: Option<int>)
    ensures
        found == four_rank_from(s, r),
        found matches Some(q) ==> rank_count(s, q) == 4,
    decreases r,
{
    if r < 2 {
        None
    } else if rank_count(s, r) == 4 {
        Some(r)
    } else {
        lemma_four_rank_found(s, r - 1)
    }
}

/// Every non-empty hand gets a result whose highest card is one of its cards. A hand with
/// no five cards of one suit, no rank held by two cards and no five consecutive ranks (the
/// Ace counting also low) is HighCard, with a card of the highest rank in the hand.
pub proof fn lemma_classify_total(s: Seq<Card>)
    requires
        s.len() > 0,
    ensures
        s.contains(classify(s).highest),
        (forall|su: Suit| #[trigger] s.filter(has_suit(su)).len() < 5) && (forall|r: int|
            #[trigger] rank_count(s, r) <= 1) && !five_in_a_row(s) ==> {
            &&& classify(s).result == ResultName::HighCard
            &&& forall|c: Card| s.contains(c) ==> c.strength() <= classify(s).highest.strength()
        },
{
    lemma_flush_over_facts(s, 4);
    lemma_kind_facts(s);
    lemma_sorted_last_is_highest(s);
    let t = strength_sorted(s);
    match last_straight_end(strengths(t), t.len() as int) {
        Some(i) => {
            let j = lemma_straight_end_found(strengths(t), t.len() as int);
            lemma_sorted_contains(s, j);
            lemma_straight_has_five(s);
        },
        None => {
            lemma_sorted_contains(s, 0);
        },
    }
}

/// When one hand's result is greater than another's, its category is stronger, or the
/// categories are the same and its highest card has the higher rank.
pub proof fn lemma_order_consistent(a: Seq<Card>, b: Seq<Card>)
    requires
        a.len() > 0,
        b.len() > 0,
        compare_results(classify(a), classify(b)) == core::cmp::Ordering::Greater,
    ensures
        classify(a).result.strength() > classify(b).result.strength() || (
        classify(a).result == classify(b).result && classify(a).highest.strength()
            > classify(b).highest.strength()),
{
}

/// Filtering commutes with forgetting the order.
proof fn lemma_filter_to_multiset(s: Seq<Card>, f: spec_fn(Card) -> bool)
    ensures
        s.filter(f).to_multiset() =~= s.to_multiset().filter(f),
    decreases s.len(),
{
    if s.len() == 0 {
        assert(s.filter(f).len() == 0);
        assert(s.filter(f).to_multiset() =~= Multiset::empty());
        assert(s.to_multiset() =~= Multiset::empty());
    } else {
        let t = s.drop_last();
        let c = s.last();
        lemma_filter_to_multiset(t, f);
        assert(t.push(c) == s);
        t.lemma_filter_push(c, f);
    }
}

/// Two orderings of one hand have, for any test, equally many cards that pass it, and the
/// same such cards.
proof fn lemma_filter_reorder(s1: Seq<Card>, s2: Seq<Card>, f: spec_fn(Card) -> bool)
    requires
        s1.to_multiset() == s2.to_multiset(),
    ensures
        s1.filter(f).to_multiset() == s2.filter(f).to_multiset(),
        s1.filter(f).len() == s2.filter(f).len(),
{
    lemma_filter_to_multiset(s1, f);
    lemma_filter_to_multiset(s2, f);
    vstd::seq_lib::to_multiset_len(s1.filter(f));
    vstd::seq_lib::to_multiset_len(s2.filter(f));
}

/// The strengths of the cards of rank strength `q` are all `q`.
proof fn lemma_bucket_strengths(s: Seq<Card>, q: int)
    ensures
        strengths(s.filter(has_strength(q))) =~= Seq::new(s.filter(has_strength(q)).len(), |i: int| q),
{
    let b = s.filter(has_strength(q));
    assert forall|i: int| 0 <= i < b.len() implies #[trigger] b[i].strength() == q by {
        assert(has_strength(q)(b[i]));
    }
}

/// The sorted strengths of a hand depend only on which cards it holds.
proof fn lemma_sorted_below_strengths(s1: Seq<Card>, s2: Seq<Card>, r: int)
    requires
        s1.to_multiset() == s2.to_multiset(),
    ensures
        strengths(sorted_below(s1, r)) == strengths(sorted_below(s2, r)),
    decreases r,
{
    if r > 2 {
        lemma_sorted_below_strengths(s1, s2, r - 1);
        let f = has_strength(r - 1);
        lemma_filter_reorder(s1, s2, f);
        lemma_bucket_strengths(s1, r - 1);
        lemma_bucket_strengths(s2, r - 1);
        let a1 = sorted_below(s1, r - 1);
        let a2 = sorted_below(s2, r - 1);
        assert(strengths(a1 + s1.filter(f)) =~= strengths(a1) + strengths(s1.filter(f)));
        assert(strengths(a2 + s2.filter(f)) =~= strengths(a2) + strengths(s2.filter(f)));
    } else {
        assert(strengths(sorted_below(s1, r)) =~= strengths(sorted_below(s2, r)));
    }
}

/// Two orderings of one hand sort to the same strengths.
proof fn lemma_sorted_strengths(s1: Seq<Card>, s2: Seq<Card>)
    requires
        s1.to_multiset() == s2.to_multiset(),
    ensures
        strengths(strength_sorted(s1)) == strengths(strength_sorted(s2)),
        strength_sorted(s1).len() == s1.len(),
        strength_sorted(s2).len() == s2.len(),
        s1.len() == s2.len(),
{
    lemma_sorted_below_strengths(s1, s2, 15);
    lemma_sorted_permutes(s1);
    lemma_sorted_permutes(s2);
    vstd::seq_lib::to_multiset_len(s1);
    vstd::seq_lib::to_multiset_len(s2);
}

/// Holds when two results have the same category and highest cards of the same rank.
pub open spec fn same_rank_result(a: HandResult, b: HandResult) -> bool {
    a.result == b.result && a.highest.strength() == b.highest.strength()
}

/// The straight scan on two orderings of one hand agrees up to the suits of the cards.
proof fn lemma_straight_reorder(s1: Seq<Card>, s2: Seq<Card>)
    requires
        s1.to_multiset() == s2.to_multiset(),
        s1.len() > 0,
    ensures
        same_rank_result(straight_of_sorted(strength_sorted(s1)), straight_of_sorted(strength_sorted(s2))),
        strength_sorted(s1).last().strength() == strength_sorted(s2).last().strength(),
{
    lemma_sorted_strengths(s1, s2);
    let t1 = strength_sorted(s1);
    let t2 = strength_sorted(s2);
    let v = strengths(t1);
    assert(strengths(t2) == v);
    assert(v[0] == t1[0].strength() && v[0] == t2[0].strength());
    assert(v[v.len() - 1] == t1.last().strength() && v[v.len() - 1] == t2.last().strength());
    match last_straight_end(v, t1.len() as int) {
        Some(i) => {
            let j = lemma_straight_end_found(v, t1.len() as int);
            assert(v[j] == t1[j].strength() && v[j] == t2[j].strength());
        },
        None => {},
    }
}

/// The flush detector on two orderings of one hand agrees on the category, and on the rank
/// of the highest card when a flush is found.
proof fn lemma_flush_reorder(s1: Seq<Card>, s2: Seq<Card>, k: int)
    requires
        s1.to_multiset() == s2.to_multiset(),
        s1.len() > 0,
    ensures
        flush_over(s1, k).result == flush_over(s2, k).result,
        flush_over(s1, k).result != ResultName::HighCard ==> same_rank_result(flush_over(s1, k), flush_over(s2, k)),
    decreases k,
{
    vstd::seq_lib::to_multiset_len(s1);
    vstd::seq_lib::to_multiset_len(s2);
    if k > 0 {
        lemma_flush_reorder(s1, s2, k - 1);
        let f = has_suit(suit_at(k - 1));
        lemma_filter_reorder(s1, s2, f);
        let g1 = s1.filter(f);
        let g2 = s2.filter(f);
        if g1.len() >= 5 {
            lemma_straight_reorder(g1, g2);
        }
    }
}

/// The four-of-a-kind search depends only on how many cards each rank has.
proof fn lemma_four_rank_reorder(s1: Seq<Card>, s2: Seq<Card>, r: int)
    requires
        forall|q: int| #[trigger] rank_count(s1, q) == rank_count(s2, q),
    ensures
        four_rank_from(s1, r) == four_rank_from(s2, r),
    decreases r,
{
    if r >= 2 {
        lemma_four_rank_reorder(s1, s2, r - 1);
        assert(rank_count(s1, r) == rank_count(s2, r));
    }
}

/// The of-a-kind detector on two orderings of one hand agrees on the category, and on the
/// rank of the highest card when a group is found.
proof fn lemma_kind_reorder(s1: Seq<Card>, s2: Seq<Card>)
    requires
        s1.to_multiset() == s2.to_multiset(),
        s1.len() > 0,
    ensures
        kind_result(s1).result == kind_result(s2).result,
        kind_result(s1).result != ResultName::HighCard ==> same_rank_result(kind_result(s1), kind_result(s2)),
{
    vstd::seq_lib::to_multiset_len(s1);
    vstd::seq_lib::to_multiset_len(s2);
    assert forall|q: int| #[trigger] rank_count(s1, q) == rank_count(s2, q) by {
        lemma_filter_reorder(s1, s2, has_strength(q));
    }
    lemma_four_rank_reorder(s1, s2, 14);
    match lemma_four_rank_found(s1, 14) {
        Some(r) => {
            let b1 = s1.filter(has_strength(r));
            let b2 = s2.filter(has_strength(r));
            assert(rank_count(s2, r) == 4);
            assert(has_strength(r)(b1[0]));
            assert(has_strength(r)(b2[0]));
        },
        None => {
            assert(is_paired(s1) =~= is_paired(s2));
            let p1 = s1.filter(is_paired(s1));
            let p2 = s2.filter(is_paired(s2));
            lemma_filter_reorder(s1, s2, is_paired(s1));
            lemma_sorted_strengths(p1, p2);
            if p1.len() > 0 {
                lemma_straight_reorder(p1, p2);
            }
        },
    }
}

/// Reordering a hand changes neither its category nor the rank of its highest card, so the
/// two results compare as equal. Where no other card of the hand has the rank of the
/// highest card, the two results are the same.
pub proof fn lemma_order_independent(s1: Seq<Card>, s2: Seq<Card>)
    requires
        s1.len() > 0,
        s1.to_multiset() == s2.to_multiset(),
    ensures
        classify(s1).result == classify(s2).result,
        classify(s1).highest.strength() == classify(s2).highest.strength(),
        compare_results(classify(s1), classify(s2)) == core::cmp::Ordering::Equal,
        rank_count(s1, classify(s1).highest.strength()) == 1 ==> classify(s1) == classify(s2),
{
    vstd::seq_lib::to_multiset_len(s1);
    vstd::seq_lib::to_multiset_len(s2);
    lemma_flush_reorder(s1, s2, 4);
    lemma_kind_reorder(s1, s2);
    lemma_straight_reorder(s1, s2);
    let h1 = classify(s1).highest;
    let h2 = classify(s2).highest;
    if rank_count(s1, h1.strength()) == 1 {
        lemma_classify_total(s1);
        lemma_classify_total(s2);
        assert(s2.to_multiset().count(h2) > 0);
        assert(s1.contains(h2));
        let f = has_strength(h1.strength());
        let i1 = choose|i: int| 0 <= i < s1.len() && s1[i] == h1;
        let i2 = choose|i: int| 0 <= i < s1.len() && s1[i] == h2;
        s1.lemma_filter_contains(f, i1);
        s1.lemma_filter_contains(f, i2);
        let b = s1.filter(f);
        assert(b.len() == 1);
        let j1 = choose|j: int| 0 <= j < b.len() && b[j] == h1;
        let j2 = choose|j: int| 0 <= j < b.len() && b[j] == h2;
    }
}

} // verus!
