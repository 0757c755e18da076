//! Classification of a hand into a category with its highest qualifying card.
use vstd::prelude::*;
use vstd::multiset::Multiset;
use crate::card::{Card, Suit, compare_cards};

verus! {

broadcast use vstd::seq_lib::group_filter_ensures, vstd::seq_lib::group_to_multiset_ensures,
    vstd::seq_lib::lemma_multiset_commutative, vstd::seq::Seq::lemma_filter_push;

/// The nine hand categories.
#[derive(Debug, Clone, Copy, PartialEq, Eq, Structural)]
pub enum ResultName {
    StraightFlush,
    FourOfAKind,
    FullHouse,
    Flush,
    Straight,
    ThreeOfAKind,
    TwoPair,
    Pair,
    HighCard,
}

impl ResultName {
    /// The strength of a category: HighCard is 0, ..., StraightFlush is 8.
    pub open spec fn strength(self) -> int {
        match self {
            ResultName::StraightFlush => 8,
            ResultName::FourOfAKind => 7,
            ResultName::FullHouse => 6,
            ResultName::Flush => 5,
            ResultName::Straight => 4,
            ResultName::ThreeOfAKind => 3,
            ResultName::TwoPair => 2,
            ResultName::Pair => 1,
            ResultName::HighCard => 0,
        }
    }

    pub fn value(&self) -> (r: u32)
        ensures
            r as int == self.strength(),
    {
        match *self {
            ResultName::StraightFlush => 8,
            ResultName::FourOfAKind => 7,
            ResultName::FullHouse => 6,
            ResultName::Flush => 5,
            ResultName::Straight => 4,
            ResultName::ThreeOfAKind => 3,
            ResultName::TwoPair => 2,
            ResultName::Pair => 1,
            ResultName::HighCard => 0,
        }
    }
}

/// A classified hand: its category and the card that breaks ties within the category.
#[derive(Debug, Clone, Copy, PartialEq, Eq, Structural)]
pub struct HandResult {
    pub result: ResultName,
    pub highest: Card,
}

/// How two results compare: by category strength, then by the highest card's rank.
pub open spec fn compare_results(a: HandResult, b: HandResult) -> core::cmp::Ordering {
    if a.result.strength() < b.result.strength() {
        core::cmp::Ordering::Less
    } else if a.result.strength() > b.result.strength() {
        core::cmp::Ordering::Greater
    } else {
        compare_cards(a.highest, b.highest)
    }
}

impl HandResult {
    /// Compares two results: category first, then the rank of the highest card.
    pub fn compare(&self, other: &HandResult) -> (r: core::cmp::Ordering)
        ensures
            r == compare_results(*self, *other),
    {
        let a = self.result.value();
        let b = other.result.value();
        if a < b {
            core::cmp::Ordering::Less
        } else if a > b {
            core::cmp::Ordering::Greater
        } else {
            let x = self.highest.value.value();
            let y = other.highest.value.value();
            if x < y {
                core::cmp::Ordering::Less
            } else if x > y {
                core::cmp::Ordering::Greater
            } else {
                core::cmp::Ordering::Equal
            }
        }
    }
}

impl PartialOrd for HandResult {
    fn partial_cmp(&self, other: &HandResult) -> (r: Option<core::cmp::Ordering>)
        ensures
            r == Some(compare_results(*self, *other)),
    {
        Some(self.compare(other))
    }
}

impl vstd::std_specs::cmp::PartialOrdSpecImpl for HandResult {
    open spec fn obeys_partial_cmp_spec() -> bool {
        true
    }

    open spec fn partial_cmp_spec(&self, other: &HandResult) -> Option<core::cmp::Ordering> {
        Some(compare_results(*self, *other))
    }
}

/// The display label of a category.
pub open spec fn result_label(r: ResultName) -> Seq<char> {
    match r {
        ResultName::StraightFlush => "Straight Flush"@,
        ResultName::FourOfAKind => "4 Of A Kind"@,
        ResultName::FullHouse => "Full House"@,
        ResultName::Flush => "Flush"@,
        ResultName::Straight => "Straight"@,
        ResultName::ThreeOfAKind => "3 Of A Kind"@,
        ResultName::TwoPair => "Two Pair"@,
        ResultName::Pair => "Pair"@,
        ResultName::HighCard => "High Card"@,
    }
}

impl HandResult {
    /// The label of this result's category, such as "Full House".
    pub fn label(&self) -> (r: String)
        ensures
            r@ == result_label(self.result),
    {
        match self.result {
            ResultName::StraightFlush => "Straight Flush".to_string(),
            ResultName::FourOfAKind => "4 Of A Kind".to_string(),
            ResultName::FullHouse => "Full House".to_string(),
            ResultName::Flush => "Flush".to_string(),
            ResultName::Straight => "Straight".to_string(),
            ResultName::ThreeOfAKind => "3 Of A Kind".to_string(),
            ResultName::TwoPair => "Two Pair".to_string(),
            ResultName::Pair => "Pair".to_string(),
            ResultName::HighCard => "High Card".to_string(),
        }
    }
}

// ---------------------------------------------------------------------------
// Sorting by rank strength

/// Holds of the cards whose rank has strength `r`.
pub open spec fn has_strength(r: int) -> spec_fn(Card) -> bool {
    |c: Card| c.strength() == r
}

/// Holds of the cards of suit `su`.
pub open spec fn has_suit(su: Suit) -> spec_fn(Card) -> bool {
    |c: Card| c.suit == su
}

/// The cards of `s` whose strength is below `r`, grouped by ascending strength, each group
/// in the order of `s`.
pub open spec fn sorted_below(s: Seq<Card>, r: int) -> Seq<Card>
    decreases r,
{
    if r <= 2 {
        Seq::empty()
    } else {
        sorted_below(s, r - 1) + s.filter(has_strength(r - 1))
    }
}

/// The stable sort of `s` by ascending rank strength.
pub open spec fn strength_sorted(s: Seq<Card>) -> Seq<Card> {
    sorted_below(s, 15)
}

proof fn lemma_sorted_below_push(s: Seq<Card>, c: Card, r: int)
    ensures
        sorted_below(s.push(c), r).to_multiset() == (if 2 <= c.strength() < r {
            sorted_below(s, r).to_multiset().insert(c)
        } else {
            sorted_below(s, r).to_multiset()
        }),
    decreases r,
{
    if r > 2 {
        lemma_sorted_below_push(s, c, r - 1);
        let f = has_strength(r - 1);
        s.lemma_filter_push(c, f);
        assert(sorted_below(s.push(c), r).to_multiset() =~= sorted_below(s.push(c), r - 1).to_multiset().add(
            s.push(c).filter(f).to_multiset(),
        ));
        assert(sorted_below(s, r).to_multiset() =~= sorted_below(s, r - 1).to_multiset().add(
            s.filter(f).to_multiset(),
        ));
    } else {
        assert(sorted_below(s.push(c), r).to_multiset() =~= Multiset::empty());
        assert(sorted_below(s, r).to_multiset() =~= Multiset::empty());
    }
}

/// Sorting by strength keeps every card, each as often as it occurs.
pub proof fn lemma_sorted_permutes(s: Seq<Card>)
    ensures
        strength_sorted(s).to_multiset() == s.to_multiset(),
        strength_sorted(s).len() == s.len(),
    decreases s.len(),
{
    if s.len() == 0 {
        lemma_sorted_below_empty(s, 15);
        assert(s.to_multiset() =~= Multiset::empty());
    } else {
        let t = s.drop_last();
        let c = s.last();
        lemma_sorted_permutes(t);
        assert(t.push(c) == s);
        lemma_sorted_below_push(t, c, 15);
    }
    vstd::seq_lib::to_multiset_len(strength_sorted(s));
    vstd::seq_lib::to_multiset_len(s);
}

proof fn lemma_sorted_below_empty(s: Seq<Card>, r: int)
    requires
        s.len() == 0,
    ensures
        sorted_below(s, r).to_multiset() =~= Multiset::empty(),
    decreases r,
{
    if r > 2 {
        lemma_sorted_below_empty(s, r - 1);
        assert(s.filter(has_strength(r - 1)).len() == 0);
        assert(s.filter(has_strength(r - 1)).to_multiset() =~= Multiset::empty());
    }
}

/// Filtering a prefix one element longer adds at most that element.
proof fn lemma_filter_step(s: Seq<Card>, i: int, f: spec_fn(Card) -> bool)
    requires
        0 <= i < s.len(),
    ensures
        s.subrange(0, i + 1).filter(f) == if f(s[i]) {
            s.subrange(0, i).filter(f).push(s[i])
        } else {
            s.subrange(0, i).filter(f)
        },
{
    assert(s.subrange(0, i + 1) =~= s.subrange(0, i).push(s[i]));
    s.subrange(0, i).lemma_filter_push(s[i], f);
}

/// The cards of `hand` whose rank has strength `r`, in order.
fn cards_of_strength(hand: &[Card], r: u32) -> (out: Vec<Card>)
    ensures
        out@ == hand@.filter(has_strength(r as int)),
{
    let mut out: Vec<Card> = Vec::new();
    let mut i: usize = 0;
    while i < hand.len()
        invariant
            i <= hand@.len(),
            out@ == hand@.subrange(0, i as int).filter(has_strength(r as int)),
        decreases hand@.len() - i,
    {
        proof {
            lemma_filter_step(hand@, i as int, has_strength(r as int));
        }
        if hand[i].value.value() == r {
            out.push(hand[i]);
        }
        i += 1;
    }
    assert(hand@.subrange(0, hand@.len() as int) =~= hand@);
    out
}

/// The cards of `hand` of suit `su`, in order.
fn cards_of_suit(hand: &[Card], su: Suit) -> (out: Vec<Card>)
    ensures
        out@ == hand@.filter(has_suit(su)),
{
    let mut out: Vec<Card> = Vec::new();
    let mut i: usize = 0;
    while i < hand.len()
        invariant
            i <= hand@.len(),
            out@ == hand@.subrange(0, i as int).filter(has_suit(su)),
        decreases hand@.len() - i,
    {
        proof {
            lemma_filter_step(hand@, i as int, has_suit(su));
        }
        if hand[i].suit == su {
            out.push(hand[i]);
        }
        i += 1;
    }
    assert(hand@.subrange(0, hand@.len() as int) =~= hand@);
    out
}

/// Sorts `hand` in place by ascending rank strength, keeping the order of equal ranks.
fn sort_cards(hand: &mut [Card])
    ensures
        final(hand)@ == strength_sorted(old(hand)@),
{
    let mut out: Vec<Card> = Vec::new();
    let mut r: u32 = 2;
    while r < 15
        invariant
            2 <= r <= 15,
            hand@ == old(hand)@,
            out@ == sorted_below(old(hand)@, r as int),
        decreases 15 - r,
    {
        let bucket = cards_of_strength(hand, r);
        out.append(&mut bucket.clone());
        r += 1;
    }
    proof {
        lemma_sorted_permutes(old(hand)@);
    }
    let mut i: usize = 0;
    while i < out.len()
        invariant
            out@ == strength_sorted(old(hand)@),
            out@.len() == hand@.len(),
            i <= out@.len(),
            forall|j: int| 0 <= j < i ==> hand@[j] == out@[j],
        decreases out@.len() - i,
    {
        hand[i] = out[i];
        i += 1;
    }
    assert(hand@ =~= out@);
}

// ---------------------------------------------------------------------------
// The detectors, as mathematical functions

/// The rank strengths of a sequence of cards.
pub open spec fn strengths(t: Seq<Card>) -> Seq<int> {
    t.map_values(|c: Card| c.strength())
}

/// Holds when the lowest of the sorted strengths `v` is a Two and the highest an Ace,
/// so that the Ace may also count as a one before the Two.
pub open spec fn wheel_possible(v: Seq<int>) -> bool {
    v.len() > 0 && v[0] == 2 && v.last() == 14
}

/// The length of the run of consecutive strengths in `v` that ends at index `i`, where a
/// possible wheel lets the run at index 0 start at two.
pub open spec fn run_length(v: Seq<int>, i: int) -> int
    decreases i,
{
    if i <= 0 {
        if wheel_possible(v) {
            2
        } else {
            1
        }
    } else if v[i] == v[i - 1] + 1 {
        run_length(v, i - 1) + 1
    } else {
        1
    }
}

/// The last index below `k` at which a run of at least five ends, if any.
pub open spec fn last_straight_end(v: Seq<int>, k: int) -> Option<int>
    decreases k,
{
    if k <= 0 {
        None
    } else if run_length(v, k - 1) >= 5 {
        Some(k - 1)
    } else {
        last_straight_end(v, k - 1)
    }
}

/// The straight detector on a hand `t` already sorted by strength: Straight with the card
/// where the last run of five or more ends, else HighCard with the lowest card.
pub open spec fn straight_of_sorted(t: Seq<Card>) -> HandResult {
    match last_straight_end(strengths(t), t.len() as int) {
        Some(i) => HandResult { result: ResultName::Straight, highest: t[i] },
        None => HandResult { result: ResultName::HighCard, highest: t[0] },
    }
}

/// The result of a flush group `g` (five or more cards of one suit): StraightFlush when its
/// cards form a straight, else Flush; with its highest card after the sort.
pub open spec fn flush_group_result(g: Seq<Card>) -> HandResult {
    let t = strength_sorted(g);
    HandResult {
        result: if straight_of_sorted(t).result == ResultName::Straight {
            ResultName::StraightFlush
        } else {
            ResultName::Flush
        },
        highest: t.last(),
    }
}

/// The suits in the order the flush detector visits them.
pub open spec fn suit_at(k: int) -> Suit {
    if k == 0 {
        Suit::Clubs
    } else if k == 1 {
        Suit::Diamonds
    } else if k == 2 {
        Suit::Hearts
    } else {
        Suit::Spades
    }
}

/// The flush detector over the first `k` suits: the strongest flush group among them (the
/// earlier suit on a tie), or HighCard with the first card when no suit has five cards.
pub open spec fn flush_over(s: Seq<Card>, k: int) -> HandResult
    decreases k,
{
    if k <= 0 {
        HandResult { result: ResultName::HighCard, highest: s[0] }
    } else {
        let acc = flush_over(s, k - 1);
        let g = s.filter(has_suit(suit_at(k - 1)));
        if g.len() >= 5 && (acc.result == ResultName::HighCard || compare_results(
            flush_group_result(g),
            acc,
        ) == core::cmp::Ordering::Greater) {
            flush_group_result(g)
        } else {
            acc
        }
    }
}

/// The flush detector.
pub open spec fn flush_result(s: Seq<Card>) -> HandResult {
    flush_over(s, 4)
}

/// How many cards of `s` have a rank of strength `r`.
pub open spec fn rank_count(s: Seq<Card>, r: int) -> nat {
    s.filter(has_strength(r)).len()
}

/// The highest strength at most `r` held by exactly four cards of `s`, if any.
pub open spec fn four_rank_from(s: Seq<Card>, r: int) -> Option<int>
    decreases r,
{
    if r < 2 {
        None
    } else if rank_count(s, r) == 4 {
        Some(r)
    } else {
        four_rank_from(s, r - 1)
    }
}

/// Holds of the cards whose rank is shared by another card of `s`.
pub open spec fn is_paired(s: Seq<Card>) -> spec_fn(Card) -> bool {
    |c: Card| rank_count(s, c.strength()) >= 2
}

/// The of-a-kind detector. A rank held by four cards gives FourOfAKind with the first such
/// card. Otherwise the cards whose rank is shared decide, by how many they are: 5 or 7 give
/// FullHouse, 4 or 6 TwoPair, 3 ThreeOfAKind, 2 Pair, with the last of them after a sort;
/// any other number gives HighCard with the first card.
pub open spec fn kind_result(s: Seq<Card>) -> HandResult {
    match four_rank_from(s, 14) {
        Some(r) => HandResult { result: ResultName::FourOfAKind, highest: s.filter(has_strength(r))[0] },
        None => {
            let p = strength_sorted(s.filter(is_paired(s)));
            let n = p.len();
            if n == 5 || n == 7 {
                HandResult { result: ResultName::FullHouse, highest: p.last() }
            } else if n == 4 || n == 6 {
                HandResult { result: ResultName::TwoPair, highest: p.last() }
            } else if n == 3 {
                HandResult { result: ResultName::ThreeOfAKind, highest: p.last() }
            } else if n == 2 {
                HandResult { result: ResultName::Pair, highest: p.last() }
            } else {
                HandResult { result: ResultName::HighCard, highest: s[0] }
            }
        },
    }
}

/// Holds when the result is settled before the straight detector runs (and sorts the hand).
pub open spec fn settled_before_straight(s: Seq<Card>) -> bool {
    let f = flush_result(s).result;
    let k = kind_result(s).result;
    f == ResultName::StraightFlush || f == ResultName::Flush || k == ResultName::FourOfAKind
        || k == ResultName::FullHouse
}

/// The classification of a non-empty hand, by fixed priority: StraightFlush, FourOfAKind,
/// FullHouse, Flush, Straight, ThreeOfAKind, TwoPair, Pair, and HighCard with the highest
/// card last.
pub open spec fn classify(s: Seq<Card>) -> HandResult {
    let f = flush_result(s);
    let k = kind_result(s);
    let t = strength_sorted(s);
    let st = straight_of_sorted(t);
    if f.result == ResultName::StraightFlush {
        f
    } else if k.result == ResultName::FourOfAKind || k.result == ResultName::FullHouse {
        k
    } else if f.result == ResultName::Flush {
        f
    } else if st.result == ResultName::Straight {
        st
    } else if k.result != ResultName::HighCard {
        k
    } else {
        HandResult { result: ResultName::HighCard, highest: t.last() }
    }
}

// ---------------------------------------------------------------------------
// The detectors, executable

impl HandResult {
    /// Classifies a non-empty hand. The hand may be left sorted by rank strength.
    pub fn check_hand(hand: &mut [Card]) -> (r: HandResult)
        requires
            old(hand)@.len() > 0,
        ensures
            r == classify(old(hand)@),
            final(hand)@ == if settled_before_straight(old(hand)@) {
                old(hand)@
            } else {
                strength_sorted(old(hand)@)
            },
    {
        let flush_check = Self::check_flush(hand);
        if flush_check.result == ResultName::StraightFlush {
            return flush_check;
        }
        let of_a_kind_check = Self::check_of_a_kind(hand);
        if of_a_kind_check.result == ResultName::FourOfAKind {
            return of_a_kind_check;
        }
        if of_a_kind_check.result == ResultName::FullHouse {
            return of_a_kind_check;
        }
        if flush_check.result == ResultName::Flush {
            return flush_check;
        }
        let straight_check = Self::check_straight(hand);
        if straight_check.result == ResultName::Straight {
            return straight_check;
        }
        if of_a_kind_check.result == ResultName::ThreeOfAKind {
            return of_a_kind_check;
        }
        if of_a_kind_check.result == ResultName::TwoPair {
            return of_a_kind_check;
        }
        if of_a_kind_check.result == ResultName::Pair {
            return of_a_kind_check;
        }
        proof {
            lemma_sorted_permutes(old(hand)@);
        }
        HandResult { result: ResultName::HighCard, highest: hand[hand.len() - 1] }
    }

    /// The flush detector.
    fn check_flush(hand: &[Card]) -> (r: HandResult)
        requires
            hand@.len() > 0,
        ensures
            r == flush_result(hand@),
    {
        let mut best = HandResult { result: ResultName::HighCard, highest: hand[0] };
        let mut k: usize = 0;
        while k < 4
            invariant
                k <= 4,
                hand@.len() > 0,
                best == flush_over(hand@, k as int),
            decreases 4 - k,
        {
            let su = suit_by_index(k);
            let mut flush_cards = cards_of_suit(hand, su);
            if flush_cards.len() >= 5 {
                let test = Self::check_straight(flush_cards.as_mut_slice());
                proof {
                    lemma_sorted_permutes(hand@.filter(has_suit(su)));
                }
                let group = HandResult {
                    result: if test.result == ResultName::Straight {
                        ResultName::StraightFlush
                    } else {
                        ResultName::Flush
                    },
                    highest: flush_cards[flush_cards.len() - 1],
                };
                let stronger = match group.compare(&best) {
                    core::cmp::Ordering::Greater => true,
                    _ => false,
                };
                if best.result == ResultName::HighCard || stronger {
                    best = group;
                }
            }
            k += 1;
        }
        best
    }

    /// The of-a-kind detector.
    fn check_of_a_kind(hand: &[Card]) -> (r: HandResult)
        requires
            hand@.len() > 0,
        ensures
            r == kind_result(hand@),
    {
        let mut r: u32 = 14;
        while r >= 2
            invariant
                1 <= r <= 14,
                four_rank_from(hand@, 14) == four_rank_from(hand@, r as int),
            decreases r,
        {
            let group = cards_of_strength(hand, r);
            if group.len() == 4 {
                return HandResult { result: ResultName::FourOfAKind, highest: group[0] };
            }
            r -= 1;
        }
        let mut final_cards: Vec<Card> = Vec::new();
        let mut i: usize = 0;
        while i < hand.len()
            invariant
                i <= hand@.len(),
                final_cards@ == hand@.subrange(0, i as int).filter(is_paired(hand@)),
            decreases hand@.len() - i,
        {
            proof {
                lemma_filter_step(hand@, i as int, is_paired(hand@));
            }
            let same_rank = cards_of_strength(hand, hand[i].value.value());
            if same_rank.len() >= 2 {
                final_cards.push(hand[i]);
            }
            i += 1;
        }
        assert(hand@.subrange(0, hand@.len() as int) =~= hand@);
        let ghost paired = hand@.filter(is_paired(hand@));
        sort_cards(final_cards.as_mut_slice());
        proof {
            lemma_sorted_permutes(paired);
        }
        let n = final_cards.len();
        if n == 5 || n == 7 {
            HandResult { result: ResultName::FullHouse, highest: final_cards[n - 1] }
        } else if n == 4 || n == 6 {
            HandResult { result: ResultName::TwoPair, highest: final_cards[n - 1] }
        } else if n == 3 {
            HandResult { result: ResultName::ThreeOfAKind, highest: final_cards[n - 1] }
        } else if n == 2 {
            HandResult { result: ResultName::Pair, highest: final_cards[n - 1] }
        } else {
            HandResult { result: ResultName::HighCard, highest: hand[0] }
        }
    }

    /// The straight detector: sorts the hand by strength, then scans it for runs.
    fn check_straight(hand: &mut [Card]) -> (r: HandResult)
        requires
            old(hand)@.len() > 0,
        ensures
            final(hand)@ == strength_sorted(old(hand)@),
            r == straight_of_sorted(final(hand)@),
    {
        proof {
            lemma_sorted_permutes(old(hand)@);
        }
        sort_cards(hand);
        let ghost v = strengths(hand@);
        let n = hand.len();
        let mut result = ResultName::HighCard;
        let mut highest_card = hand[0];
        // The run counter stops at five: only whether a run reached five matters.
        let mut in_a_row: usize = 1;
        let mut prev_value = hand[0].value.value();
        if hand[n - 1].value.value() == 14 && prev_value == 2 {
            in_a_row = 2;
        }
        proof {
            assert(last_straight_end(v, 0) == None::<int>);
            assert(run_length(v, 0) <= 2);
            assert(last_straight_end(v, 1) == None::<int>);
        }
        let mut i: usize = 1;
        while i < n
            invariant
                1 <= i <= n,
                n == hand@.len(),
                v == strengths(hand@),
                in_a_row as int == if run_length(v, i - 1) < 5 {
                    run_length(v, i - 1)
                } else {
                    5
                },
                prev_value as int == v[i - 1],
                match last_straight_end(v, i as int) {
                    Some(j) => result == ResultName::Straight && highest_card == hand@[j],
                    None => result == ResultName::HighCard && highest_card == hand@[0],
                },
            decreases n - i,
        {
            let value = hand[i].value.value();
            if value == prev_value + 1 {
                if in_a_row < 5 {
                    in_a_row = in_a_row + 1;
                }
            } else {
                in_a_row = 1;
            }
            if in_a_row >= 5 {
                result = ResultName::Straight;
                highest_card = hand[i];
            }
            prev_value = value;
            i += 1;
        }
        HandResult { result: result, highest: highest_card }
    }
}

/// The suit that the flush detector visits at step `k`.
fn suit_by_index(k: usize) -> (su: Suit)
    ensures
        su == suit_at(k as int),
{
    if k == 0 {
        Suit::Clubs
    } else if k == 1 {
        Suit::Diamonds
    } else if k == 2 {
        Suit::Hearts
    } else {
        Suit::Spades
    }
}

/// Picks the winner among several non-empty hands: the first hand whose result no other
/// hand's result exceeds. Returns its index and its result. The hands are left as given.
pub fn pick_winner(hands: &Vec<Vec<Card>>) -> (r: (usize, HandResult))
    requires
        hands@.len() > 0,
        forall|i: int| 0 <= i < hands@.len() ==> #[trigger] hands@[i]@.len() > 0,
    ensures
        r.0 < hands@.len(),
        r.1 == classify(hands@[r.0 as int]@),
        forall|j: int|
            0 <= j < hands@.len() ==> compare_results(#[trigger] classify(hands@[j]@), r.1)
                != core::cmp::Ordering::Greater,
        forall|j: int|
            0 <= j < r.0 ==> compare_results(#[trigger] classify(hands@[j]@), r.1)
                == core::cmp::Ordering::Less,
{
    let mut first = hands[0].clone();
    let mut best = HandResult::check_hand(first.as_mut_slice());
    let mut winner: usize = 0;
    let mut i: usize = 1;
    while i < hands.len()
        invariant
            1 <= i <= hands@.len(),
            forall|k: int| 0 <= k < hands@.len() ==> #[trigger] hands@[k]@.len() > 0,
            winner < i,
            best == classify(hands@[winner as int]@),
            forall|j: int|
                0 <= j < i ==> compare_results(#[trigger] classify(hands@[j]@), best)
                    != core::cmp::Ordering::Greater,
            forall|j: int|
                0 <= j < winner ==> compare_results(#[trigger] classify(hands@[j]@), best)
                    == core::cmp::Ordering::Less,
        decreases hands@.len() - i,
    {
        let mut hand = hands[i].clone();
        let player_hand = HandResult::check_hand(hand.as_mut_slice());
        let greater = match player_hand.compare(&best) {
            core::cmp::Ordering::Greater => true,
            _ => false,
        };
        if greater {
            best = player_hand;
            winner = i;
        }
        i += 1;
    }
    (winner, best)
}

} // verus!
