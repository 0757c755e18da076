use poker_hand::card::{Card, Suit, Value};
use poker_hand::player::Player;

const SUITS: [Suit; 4] = [Suit::Clubs, Suit::Diamonds, Suit::Hearts, Suit::Spades];
const VALUES: [Value; 13] = [
    Value::Ace,
    Value::Two,
    Value::Three,
    Value::Four,
    Value::Five,
    Value::Six,
    Value::Seven,
    Value::Eight,
    Value::Nine,
    Value::Ten,
    Value::Jack,
    Value::Queen,
    Value::King,
];

#[test]
fn rank_strengths() {
    assert_eq!(Value::Ace.value(), 14);
    assert_eq!(Value::Two.value(), 2);
    assert_eq!(Value::Ten.value(), 10);
    assert_eq!(Value::Jack.value(), 11);
    assert_eq!(Value::King.value(), 13);
}

#[test]
fn names_and_codes() {
    assert_eq!(Suit::Diamonds.name(), "Diamonds");
    assert_eq!(Suit::Spades.letter(), 'S');
    assert_eq!(Value::Queen.name(), "Queen");
    assert_eq!(Value::Ten.short_name(), "10");
    assert_eq!(Value::Ace.short_name(), "A");
    assert_eq!(Card::new(Suit::Spades, Value::Ace).code(), "AS");
    assert_eq!(Card::new(Suit::Hearts, Value::Ten).code(), "10H");
    assert_eq!(Card::new(Suit::Clubs, Value::Seven).code(), "7C");
}

#[test]
fn every_code_reads_back() {
    for suit in SUITS {
        for value in VALUES {
            let card = Card::new(suit, value);
            assert_eq!(Card::from_code(&card.code()), Some(card));
        }
    }
}

#[test]
fn bad_codes_are_rejected() {
    assert_eq!(Card::from_code(""), None);
    assert_eq!(Card::from_code("A"), None);
    assert_eq!(Card::from_code("AX"), None);
    assert_eq!(Card::from_code("1S"), None);
    assert_eq!(Card::from_code("11S"), None);
    assert_eq!(Card::from_code("10SS"), None);
    assert_eq!(Card::from_code("10S"), Some(Card::new(Suit::Spades, Value::Ten)));
}

#[test]
fn cards_order_by_rank_only() {
    let a = Card::new(Suit::Hearts, Value::Ace);
    let b = Card::new(Suit::Clubs, Value::Ace);
    let k = Card::new(Suit::Spades, Value::King);
    assert_eq!(a.partial_cmp(&b), Some(std::cmp::Ordering::Equal));
    assert!(a != b);
    assert!(a > k);
    assert!(Card::new(Suit::Hearts, Value::Two) < k);
}

#[test]
fn player_collects_cards_in_order() {
    let mut p = Player::new("Table".to_string());
    assert!(p.cards.is_empty());
    p.add_card(Card::new(Suit::Hearts, Value::Two));
    p.add_cards(vec![Card::new(Suit::Clubs, Value::Ace), Card::new(Suit::Spades, Value::Nine)]);
    assert_eq!(p.name, "Table");
    assert_eq!(
        p.cards,
        vec![
            Card::new(Suit::Hearts, Value::Two),
            Card::new(Suit::Clubs, Value::Ace),
            Card::new(Suit::Spades, Value::Nine),
        ]
    );
}

#[test]
fn card_descriptions() {
    assert_eq!(Card::new(Suit::Spades, Value::Ace).describe(), "Ace of Spades");
    assert_eq!(Card::new(Suit::Diamonds, Value::Ten).describe(), "Ten of Diamonds");
}

#[test]
fn player_listing() {
    let mut p = Player::new("Player 1".to_string());
    p.add_card(Card::new(Suit::Hearts, Value::Two));
    p.add_card(Card::new(Suit::Clubs, Value::King));
    assert_eq!(p.describe(), "Player 1 has:\n\t- Two of Hearts\n\t- King of Clubs\n");
    assert_eq!(Player::new("Table".to_string()).describe(), "Table has:\n");
}
