use poker_hand::card::{Card, Suit, Value};
use poker_hand::hand_result::{HandResult, ResultName, pick_winner};

#[test]
fn test_check_straight_flush() {
    let mut cards = vec![
        Card::new(Suit::Hearts, Value::Six),
        Card::new(Suit::Hearts, Value::Two),
        Card::new(Suit::Hearts, Value::Three),
        Card::new(Suit::Hearts, Value::Four),
        Card::new(Suit::Hearts, Value::Five),
        Card::new(Suit::Diamonds, Value::Two),
        Card::new(Suit::Spades, Value::Two),
    ];

    let test_result = HandResult::check_hand(&mut cards);

    assert_eq!(test_result.result, ResultName::StraightFlush);
    assert_eq!(test_result.highest, Card::new(Suit::Hearts, Value::Six));
}

#[test]
fn test_check_non_straight_flush() {
    let mut cards = vec![
        Card::new(Suit::Hearts, Value::Six),
        Card::new(Suit::Hearts, Value::Two),
        Card::new(Suit::Hearts, Value::Ten),
        Card::new(Suit::Hearts, Value::Four),
        Card::new(Suit::Hearts, Value::Five),
        Card::new(Suit::Diamonds, Value::Two),
        Card::new(Suit::Spades, Value::Two),
    ];

    let test_result = HandResult::check_hand(&mut cards);

    assert_eq!(test_result.result, ResultName::Flush);
    assert_eq!(test_result.highest, Card::new(Suit::Hearts, Value::Ten));
}

#[test]
fn test_check_straight_flush_with_ace_low() {
    let mut cards = vec![
        Card::new(Suit::Hearts, Value::Ace),
        Card::new(Suit::Hearts, Value::Two),
        Card::new(Suit::Hearts, Value::Three),
        Card::new(Suit::Hearts, Value::Four),
        Card::new(Suit::Hearts, Value::Five),
        Card::new(Suit::Diamonds, Value::Two),
        Card::new(Suit::Spades, Value::Two),
    ];

    let test_result = HandResult::check_hand(&mut cards);

    assert_eq!(test_result.result, ResultName::StraightFlush);
    assert_eq!(test_result.highest, Card::new(Suit::Hearts, Value::Ace));
}

#[test]
fn test_check_straight_flush_with_ace_high() {
    let mut cards = vec![
        Card::new(Suit::Hearts, Value::Ace),
        Card::new(Suit::Hearts, Value::King),
        Card::new(Suit::Hearts, Value::Queen),
        Card::new(Suit::Hearts, Value::Jack),
        Card::new(Suit::Hearts, Value::Ten),
        Card::new(Suit::Diamonds, Value::Two),
        Card::new(Suit::Spades, Value::Two),
    ];

    let test_result = HandResult::check_hand(&mut cards);

    assert_eq!(test_result.result, ResultName::StraightFlush);
    assert_eq!(test_result.highest, Card::new(Suit::Hearts, Value::Ace));
}

#[test]
fn test_check_four_of_a_kind() {
    let mut cards = vec![
        Card::new(Suit::Hearts, Value::Ace),
        Card::new(Suit::Diamonds, Value::Ace),
        Card::new(Suit::Spades, Value::Ace),
        Card::new(Suit::Clubs, Value::Ace),
        Card::new(Suit::Hearts, Value::Ten),
        Card::new(Suit::Diamonds, Value::Two),
        Card::new(Suit::Spades, Value::Two),
    ];

    let test_result = HandResult::check_hand(&mut cards);

    assert_eq!(test_result.result, ResultName::FourOfAKind);
    assert_eq!(test_result.highest, Card::new(Suit::Hearts, Value::Ace));
}

#[test]
fn test_check_full_house() {
    let mut cards = vec![
        Card::new(Suit::Hearts, Value::Ace),
        Card::new(Suit::Diamonds, Value::Ace),
        Card::new(Suit::Spades, Value::Ace),
        Card::new(Suit::Clubs, Value::Six),
        Card::new(Suit::Hearts, Value::Ten),
        Card::new(Suit::Diamonds, Value::Two),
        Card::new(Suit::Spades, Value::Two),
    ];

    let test_result = HandResult::check_hand(&mut cards);

    assert_eq!(test_result.result, ResultName::FullHouse);
    assert_eq!(test_result.highest, Card::new(Suit::Spades, Value::Ace));
}

#[test]
fn test_check_flush() {
    let mut cards = vec![
        Card::new(Suit::Diamonds, Value::Ten),
        Card::new(Suit::Diamonds, Value::Ace),
        Card::new(Suit::Spades, Value::Three),
        Card::new(Suit::Diamonds, Value::Seven),
        Card::new(Suit::Hearts, Value::Ace),
        Card::new(Suit::Diamonds, Value::King),
        Card::new(Suit::Diamonds, Value::Queen),
    ];

    let test_result = HandResult::check_hand(&mut cards);

    assert_eq!(test_result.result, ResultName::Flush);
    assert_eq!(test_result.highest, Card::new(Suit::Diamonds, Value::Ace));
}

#[test]
fn test_check_straight() {
    let mut cards = vec![
        Card::new(Suit::Hearts, Value::Three),
        Card::new(Suit::Diamonds, Value::Seven),
        Card::new(Suit::Spades, Value::Five),
        Card::new(Suit::Clubs, Value::Seven),
        Card::new(Suit::Hearts, Value::Four),
        Card::new(Suit::Diamonds, Value::King),
        Card::new(Suit::Spades, Value::Six),
    ];

    let test_result = HandResult::check_hand(&mut cards);

    assert_eq!(test_result.result, ResultName::Straight);
    assert_eq!(test_result.highest, Card::new(Suit::Diamonds, Value::Seven));
}

#[test]
fn test_three_of_a_kind() {
    let mut cards = vec![
        Card::new(Suit::Diamonds, Value::Ten),
        Card::new(Suit::Spades, Value::Ace),
        Card::new(Suit::Clubs, Value::Ten),
        Card::new(Suit::Hearts, Value::Seven),
        Card::new(Suit::Diamonds, Value::Four),
        Card::new(Suit::Spades, Value::Ten),
        Card::new(Suit::Clubs, Value::Queen),
    ];

    let test_result = HandResult::check_hand(&mut cards);

    assert_eq!(test_result.result, ResultName::ThreeOfAKind);
    assert_eq!(test_result.highest, Card::new(Suit::Spades, Value::Ten));
}

#[test]
fn test_two_pair() {
    let mut cards = vec![
        Card::new(Suit::Diamonds, Value::Ten),
        Card::new(Suit::Spades, Value::Ace),
        Card::new(Suit::Clubs, Value::Ten),
        Card::new(Suit::Hearts, Value::Seven),
        Card::new(Suit::Diamonds, Value::Four),
        Card::new(Suit::Spades, Value::Ace),
        Card::new(Suit::Clubs, Value::Queen),
    ];

    let test_result = HandResult::check_hand(&mut cards);

    assert_eq!(test_result.result, ResultName::TwoPair);
    assert_eq!(test_result.highest, Card::new(Suit::Spades, Value::Ace));
}

#[test]
fn test_pair() {
    let mut cards = vec![
        Card::new(Suit::Diamonds, Value::Ten),
        Card::new(Suit::Spades, Value::Ace),
        Card::new(Suit::Clubs, Value::Ten),
        Card::new(Suit::Hearts, Value::Seven),
        Card::new(Suit::Diamonds, Value::Four),
        Card::new(Suit::Spades, Value::Two),
        Card::new(Suit::Clubs, Value::Queen),
    ];

    let test_result = HandResult::check_hand(&mut cards);

    assert_eq!(test_result.result, ResultName::Pair);
    assert_eq!(test_result.highest, Card::new(Suit::Clubs, Value::Ten));
}

#[test]
fn test_high_card() {
    let mut cards = vec![
        Card::new(Suit::Diamonds, Value::Five),
        Card::new(Suit::Spades, Value::Ace),
        Card::new(Suit::Clubs, Value::Ten),
        Card::new(Suit::Hearts, Value::Seven),
        Card::new(Suit::Diamonds, Value::Four),
        Card::new(Suit::Spades, Value::Two),
        Card::new(Suit::Clubs, Value::Queen),
    ];

    let test_result = HandResult::check_hand(&mut cards);

    assert_eq!(test_result.result, ResultName::HighCard);
    assert_eq!(test_result.highest, Card::new(Suit::Spades, Value::Ace));
}

fn classify(cards: &[Card]) -> HandResult {
    let mut hand = cards.to_vec();
    HandResult::check_hand(&mut hand)
}

#[test]
fn wheel_straight_in_mixed_suits() {
    let cards = vec![
        Card::new(Suit::Hearts, Value::Ace),
        Card::new(Suit::Clubs, Value::Two),
        Card::new(Suit::Hearts, Value::Three),
        Card::new(Suit::Spades, Value::Four),
        Card::new(Suit::Hearts, Value::Five),
        Card::new(Suit::Diamonds, Value::Nine),
        Card::new(Suit::Spades, Value::King),
    ];
    let r = classify(&cards);
    assert_eq!(r.result, ResultName::Straight);
    assert_eq!(r.highest, Card::new(Suit::Hearts, Value::Five));
}

#[test]
fn duplicate_rank_breaks_a_run() {
    let cards = vec![
        Card::new(Suit::Hearts, Value::Two),
        Card::new(Suit::Clubs, Value::Three),
        Card::new(Suit::Hearts, Value::Four),
        Card::new(Suit::Spades, Value::Four),
        Card::new(Suit::Hearts, Value::Five),
        Card::new(Suit::Diamonds, Value::Six),
    ];
    let r = classify(&cards);
    assert_eq!(r.result, ResultName::Pair);
    assert_eq!(r.highest, Card::new(Suit::Spades, Value::Four));
}

#[test]
fn longer_run_ends_at_its_last_card() {
    let cards = vec![
        Card::new(Suit::Hearts, Value::Seven),
        Card::new(Suit::Clubs, Value::Three),
        Card::new(Suit::Hearts, Value::Four),
        Card::new(Suit::Spades, Value::Six),
        Card::new(Suit::Hearts, Value::Five),
        Card::new(Suit::Diamonds, Value::Two),
        Card::new(Suit::Diamonds, Value::King),
    ];
    let r = classify(&cards);
    assert_eq!(r.result, ResultName::Straight);
    assert_eq!(r.highest, Card::new(Suit::Hearts, Value::Seven));
}

#[test]
fn two_triples_count_as_two_pair() {
    let cards = vec![
        Card::new(Suit::Hearts, Value::Nine),
        Card::new(Suit::Clubs, Value::Nine),
        Card::new(Suit::Spades, Value::Nine),
        Card::new(Suit::Hearts, Value::Four),
        Card::new(Suit::Clubs, Value::Four),
        Card::new(Suit::Spades, Value::Four),
    ];
    let r = classify(&cards);
    assert_eq!(r.result, ResultName::TwoPair);
    assert_eq!(r.highest, Card::new(Suit::Spades, Value::Nine));
}

#[test]
fn four_of_a_kind_beside_a_triple() {
    let cards = vec![
        Card::new(Suit::Hearts, Value::Nine),
        Card::new(Suit::Clubs, Value::Nine),
        Card::new(Suit::Spades, Value::Nine),
        Card::new(Suit::Hearts, Value::Four),
        Card::new(Suit::Clubs, Value::Four),
        Card::new(Suit::Spades, Value::Four),
        Card::new(Suit::Diamonds, Value::Four),
    ];
    let r = classify(&cards);
    assert_eq!(r.result, ResultName::FourOfAKind);
    assert_eq!(r.highest, Card::new(Suit::Hearts, Value::Four));
}

#[test]
fn triple_and_two_pairs_are_a_full_house() {
    let cards = vec![
        Card::new(Suit::Hearts, Value::Nine),
        Card::new(Suit::Clubs, Value::Nine),
        Card::new(Suit::Spades, Value::Nine),
        Card::new(Suit::Hearts, Value::Four),
        Card::new(Suit::Clubs, Value::Four),
        Card::new(Suit::Diamonds, Value::Jack),
        Card::new(Suit::Spades, Value::Jack),
    ];
    let r = classify(&cards);
    assert_eq!(r.result, ResultName::FullHouse);
    assert_eq!(r.highest, Card::new(Suit::Spades, Value::Jack));
}

#[test]
fn single_card_is_high_card() {
    let r = classify(&[Card::new(Suit::Clubs, Value::Eight)]);
    assert_eq!(r.result, ResultName::HighCard);
    assert_eq!(r.highest, Card::new(Suit::Clubs, Value::Eight));
}

#[test]
fn high_card_leaves_hand_sorted() {
    let mut hand = vec![
        Card::new(Suit::Diamonds, Value::Five),
        Card::new(Suit::Spades, Value::Ace),
        Card::new(Suit::Clubs, Value::Ten),
    ];
    let r = HandResult::check_hand(&mut hand);
    assert_eq!(r.result, ResultName::HighCard);
    assert_eq!(
        hand,
        vec![
            Card::new(Suit::Diamonds, Value::Five),
            Card::new(Suit::Clubs, Value::Ten),
            Card::new(Suit::Spades, Value::Ace),
        ]
    );
}

#[test]
fn flush_leaves_hand_in_place() {
    let mut hand = vec![
        Card::new(Suit::Diamonds, Value::Ten),
        Card::new(Suit::Diamonds, Value::Ace),
        Card::new(Suit::Diamonds, Value::Three),
        Card::new(Suit::Diamonds, Value::Seven),
        Card::new(Suit::Diamonds, Value::King),
    ];
    let before = hand.clone();
    let r = HandResult::check_hand(&mut hand);
    assert_eq!(r.result, ResultName::Flush);
    assert_eq!(r.highest, Card::new(Suit::Diamonds, Value::Ace));
    assert_eq!(hand, before);
}

#[test]
fn straight_flush_reports_highest_card_of_the_suit() {
    let cards = vec![
        Card::new(Suit::Clubs, Value::Nine),
        Card::new(Suit::Clubs, Value::Two),
        Card::new(Suit::Clubs, Value::Three),
        Card::new(Suit::Clubs, Value::Four),
        Card::new(Suit::Clubs, Value::Five),
        Card::new(Suit::Clubs, Value::Six),
    ];
    let r = classify(&cards);
    assert_eq!(r.result, ResultName::StraightFlush);
    assert_eq!(r.highest, Card::new(Suit::Clubs, Value::Nine));
}

#[test]
fn results_order_by_category_then_rank() {
    let flush = HandResult { result: ResultName::Flush, highest: Card::new(Suit::Clubs, Value::Six) };
    let straight = HandResult { result: ResultName::Straight, highest: Card::new(Suit::Clubs, Value::Ace) };
    assert!(flush > straight);
    assert_eq!(flush.compare(&straight), std::cmp::Ordering::Greater);
    let pair_kings = HandResult { result: ResultName::Pair, highest: Card::new(Suit::Hearts, Value::King) };
    let pair_aces = HandResult { result: ResultName::Pair, highest: Card::new(Suit::Spades, Value::Ace) };
    assert!(pair_aces > pair_kings);
    let other_aces = HandResult { result: ResultName::Pair, highest: Card::new(Suit::Clubs, Value::Ace) };
    assert_eq!(pair_aces.compare(&other_aces), std::cmp::Ordering::Equal);
    assert!(pair_aces != other_aces);
}

#[test]
fn category_values() {
    assert_eq!(ResultName::StraightFlush.value(), 8);
    assert_eq!(ResultName::FullHouse.value(), 6);
    assert_eq!(ResultName::HighCard.value(), 0);
}

#[test]
fn order_does_not_change_category() {
    let a = vec![
        Card::new(Suit::Hearts, Value::Three),
        Card::new(Suit::Diamonds, Value::Seven),
        Card::new(Suit::Spades, Value::Five),
        Card::new(Suit::Clubs, Value::Seven),
        Card::new(Suit::Hearts, Value::Four),
        Card::new(Suit::Diamonds, Value::King),
        Card::new(Suit::Spades, Value::Six),
    ];
    let mut b = a.clone();
    b.reverse();
    let ra = classify(&a);
    let rb = classify(&b);
    assert_eq!(ra.result, rb.result);
    assert_eq!(ra.highest.value, rb.highest.value);
    assert_eq!(ra.compare(&rb), std::cmp::Ordering::Equal);
    let c = vec![
        Card::new(Suit::Diamonds, Value::Five),
        Card::new(Suit::Spades, Value::Ace),
        Card::new(Suit::Clubs, Value::Ten),
        Card::new(Suit::Hearts, Value::Seven),
    ];
    let mut d = c.clone();
    d.reverse();
    assert_eq!(classify(&c), classify(&d));
}

#[test]
fn result_labels() {
    let card = Card::new(Suit::Hearts, Value::Two);
    assert_eq!(HandResult { result: ResultName::FourOfAKind, highest: card }.label(), "4 Of A Kind");
    assert_eq!(HandResult { result: ResultName::StraightFlush, highest: card }.label(), "Straight Flush");
    assert_eq!(HandResult { result: ResultName::ThreeOfAKind, highest: card }.label(), "3 Of A Kind");
    assert_eq!(HandResult { result: ResultName::HighCard, highest: card }.label(), "High Card");
}

#[test]
fn winner_is_first_best_hand() {
    let pair = vec![Card::new(Suit::Hearts, Value::Nine), Card::new(Suit::Clubs, Value::Nine)];
    let high = vec![Card::new(Suit::Hearts, Value::Ace), Card::new(Suit::Clubs, Value::King)];
    let other_pair = vec![Card::new(Suit::Spades, Value::Nine), Card::new(Suit::Diamonds, Value::Nine)];
    let hands = vec![high.clone(), pair.clone(), other_pair.clone()];
    let (winner, best) = pick_winner(&hands);
    assert_eq!(winner, 1);
    assert_eq!(best.result, ResultName::Pair);
    assert_eq!(best.highest, Card::new(Suit::Clubs, Value::Nine));
    assert_eq!(hands[1], pair);
    let (winner, _) = pick_winner(&vec![high]);
    assert_eq!(winner, 0);
}
