//! Playing cards: suits, ranks, and the compact two- or three-character code.
use vstd::prelude::*;
use vstd::string::StrSliceExecFns;

verus! {

broadcast use vstd::string::group_string_axioms;

/// One of the four suits. Suits are only grouped and compared for equality.
#[derive(Debug, Clone, Copy, PartialEq, Eq, Structural, Hash)]
pub enum Suit {
    Clubs,
    Diamonds,
    Hearts,
    Spades,
}

/// The display name of a suit.
pub open spec fn suit_name(s: Suit) -> Seq<char> {
    match s {
        Suit::Clubs => "Clubs"@,
        Suit::Diamonds => "Diamonds"@,
        Suit::Hearts => "Hearts"@,
        Suit::Spades => "Spades"@,
    }
}

/// The one-letter abbreviation of a suit: the first letter of its name.
pub open spec fn suit_letter(s: Suit) -> char {
    match s {
        Suit::Clubs => 'C',
        Suit::Diamonds => 'D',
        Suit::Hearts => 'H',
        Suit::Spades => 'S',
    }
}

impl Suit {
    pub fn name(&self) -> (r: String)
        ensures
            r@ == suit_name(*self),
    {
        match *self {
            Suit::Clubs => "Clubs".to_string(),
            Suit::Diamonds => "Diamonds".to_string(),
            Suit::Hearts => "Hearts".to_string(),
            Suit::Spades => "Spades".to_string(),
        }
    }

    pub fn letter(&self) -> (r: char)
        ensures
            r == suit_letter(*self),
            r == suit_name(*self)[0],
    {
        proof {
            reveal_strlit("Clubs");
            reveal_strlit("Diamonds");
            reveal_strlit("Hearts");
            reveal_strlit("Spades");
        }
        match *self {
            Suit::Clubs => 'C',
            Suit::Diamonds => 'D',
            Suit::Hearts => 'H',
            Suit::Spades => 'S',
        }
    }
}

/// One of the thirteen ranks. Ace is high (strength 14) by default.
#[derive(Debug, Clone, Copy, PartialEq, Eq, Structural, Hash)]
pub enum Value {
    Ace,
    Two,
    Three,
    Four,
    Five,
    Six,
    Seven,
    Eight,
    Nine,
    Ten,
    Jack,
    Queen,
    King,
}

impl Value {
    /// The numeric strength of a rank: Two is 2, ..., King is 13, Ace is 14.
    pub open spec fn strength(self) -> int {
        match self {
            Value::Ace => 14,
            Value::Two => 2,
            Value::Three => 3,
            Value::Four => 4,
            Value::Five => 5,
            Value::Six => 6,
            Value::Seven => 7,
            Value::Eight => 8,
            Value::Nine => 9,
            Value::Ten => 10,
            Value::Jack => 11,
            Value::Queen => 12,
            Value::King => 13,
        }
    }
}

/// The display name of a rank.
pub open spec fn value_name(v: Value) -> Seq<char> {
    match v {
        Value::Ace => "Ace"@,
        Value::Two => "Two"@,
        Value::Three => "Three"@,
        Value::Four => "Four"@,
        Value::Five => "Five"@,
        Value::Six => "Six"@,
        Value::Seven => "Seven"@,
        Value::Eight => "Eight"@,
        Value::Nine => "Nine"@,
        Value::Ten => "Ten"@,
        Value::Jack => "Jack"@,
        Value::Queen => "Queen"@,
        Value::King => "King"@,
    }
}

/// The short display code of a rank: a digit, "10", or the initial of a face card or Ace.
pub open spec fn short_code(v: Value) -> Seq<char> {
    match v {
        Value::Ace => seq!['A'],
        Value::Two => seq!['2'],
        Value::Three => seq!['3'],
        Value::Four => seq!['4'],
        Value::Five => seq!['5'],
        Value::Six => seq!['6'],
        Value::Seven => seq!['7'],
        Value::Eight => seq!['8'],
        Value::Nine => seq!['9'],
        Value::Ten => seq!['1', '0'],
        Value::Jack => seq!['J'],
        Value::Queen => seq!['Q'],
        Value::King => seq!['K'],
    }
}

impl Value {
    pub fn name(&self) -> (r: String)
        ensures
            r@ == value_name(*self),
    {
        match *self {
            Value::Ace => "Ace".to_string(),
            Value::Two => "Two".to_string(),
            Value::Three => "Three".to_string(),
            Value::Four => "Four".to_string(),
            Value::Five => "Five".to_string(),
            Value::Six => "Six".to_string(),
            Value::Seven => "Seven".to_string(),
            Value::Eight => "Eight".to_string(),
            Value::Nine => "Nine".to_string(),
            Value::Ten => "Ten".to_string(),
            Value::Jack => "Jack".to_string(),
            Value::Queen => "Queen".to_string(),
            Value::King => "King".to_string(),
        }
    }

    pub fn short_name(&self) -> (r: String)
        ensures
            r@ == short_code(*self),
    {
        proof {
            reveal_strlit("A");
            reveal_strlit("2");
            reveal_strlit("3");
            reveal_strlit("4");
            reveal_strlit("5");
            reveal_strlit("6");
            reveal_strlit("7");
            reveal_strlit("8");
            reveal_strlit("9");
            reveal_strlit("10");
            reveal_strlit("J");
            reveal_strlit("Q");
            reveal_strlit("K");
        }
        match *self {
            Value::Ace => "A".to_string(),
            Value::Two => "2".to_string(),
            Value::Three => "3".to_string(),
            Value::Four => "4".to_string(),
            Value::Five => "5".to_string(),
            Value::Six => "6".to_string(),
            Value::Seven => "7".to_string(),
            Value::Eight => "8".to_string(),
            Value::Nine => "9".to_string(),
            Value::Ten => "10".to_string(),
            Value::Jack => "J".to_string(),
            Value::Queen => "Q".to_string(),
            Value::King => "K".to_string(),
        }
    }

    pub fn value(&self) -> (r: u32)
        ensures
            r as int == self.strength(),
    {
        match *self {
            Value::Ace => 14,
            Value::Two => 2,
            Value::Three => 3,
            Value::Four => 4,
            Value::Five => 5,
            Value::Six => 6,
            Value::Seven => 7,
            Value::Eight => 8,
            Value::Nine => 9,
            Value::Ten => 10,
            Value::Jack => 11,
            Value::Queen => 12,
            Value::King => 13,
        }
    }
}

/// A card: a suit and a rank. Equality compares both fields; order compares the rank only.
#[derive(Debug, Clone, Copy, PartialEq, Eq, Structural)]
pub struct Card {
    pub suit: Suit,
    pub value: Value,
}

impl Card {
    /// The strength of the card's rank.
    pub open spec fn strength(self) -> int {
        self.value.strength()
    }

    pub fn new(suit: Suit, value: Value) -> (r: Card)
        ensures
            r.suit == suit,
            r.value == value,
    {
        Card { suit: suit, value: value }
    }
}

/// How two cards compare: by rank strength alone.
pub open spec fn compare_cards(a: Card, b: Card) -> core::cmp::Ordering {
    if a.strength() < b.strength() {
        core::cmp::Ordering::Less
    } else if a.strength() > b.strength() {
        core::cmp::Ordering::Greater
    } else {
        core::cmp::Ordering::Equal
    }
}

impl PartialOrd for Card {
    fn partial_cmp(&self, other: &Card) -> (r: Option<core::cmp::Ordering>)
        ensures
            r == Some(compare_cards(*self, *other)),
    {
        let a = self.value.value();
        let b = other.value.value();
        if a < b {
            Some(core::cmp::Ordering::Less)
        } else if a > b {
            Some(core::cmp::Ordering::Greater)
        } else {
            Some(core::cmp::Ordering::Equal)
        }
    }
}

impl vstd::std_specs::cmp::PartialOrdSpecImpl for Card {
    open spec fn obeys_partial_cmp_spec() -> bool {
        true
    }

    open spec fn partial_cmp_spec(&self, other: &Card) -> Option<core::cmp::Ordering> {
        Some(compare_cards(*self, *other))
    }
}

/// The compact code of a card: its rank's short code followed by its suit's letter.
pub open spec fn card_code(c: Card) -> Seq<char> {
    short_code(c.value).push(suit_letter(c.suit))
}

/// The suit whose letter is `ch`, if any.
pub open spec fn suit_of_letter(ch: char) -> Option<Suit> {
    if ch == 'C' {
        Some(Suit::Clubs)
    } else if ch == 'D' {
        Some(Suit::Diamonds)
    } else if ch == 'H' {
        Some(Suit::Hearts)
    } else if ch == 'S' {
        Some(Suit::Spades)
    } else {
        None
    }
}

/// The rank whose short code is `s`, if any.
pub open spec fn value_of_code(s: Seq<char>) -> Option<Value> {
    if s == short_code(Value::Ace) {
        Some(Value::Ace)
    } else if s == short_code(Value::Two) {
        Some(Value::Two)
    } else if s == short_code(Value::Three) {
        Some(Value::Three)
    } else if s == short_code(Value::Four) {
        Some(Value::Four)
    } else if s == short_code(Value::Five) {
        Some(Value::Five)
    } else if s == short_code(Value::Six) {
        Some(Value::Six)
    } else if s == short_code(Value::Seven) {
        Some(Value::Seven)
    } else if s == short_code(Value::Eight) {
        Some(Value::Eight)
    } else if s == short_code(Value::Nine) {
        Some(Value::Nine)
    } else if s == short_code(Value::Ten) {
        Some(Value::Ten)
    } else if s == short_code(Value::Jack) {
        Some(Value::Jack)
    } else if s == short_code(Value::Queen) {
        Some(Value::Queen)
    } else if s == short_code(Value::King) {
        Some(Value::King)
    } else {
        None
    }
}

/// The card that a compact code denotes, if any.
pub open spec fn decode_card(s: Seq<char>) -> Option<Card> {
    if s.len() == 0 {
        None
    } else {
        match (value_of_code(s.drop_last()), suit_of_letter(s.last())) {
            (Some(v), Some(su)) => Some(Card { suit: su, value: v }),
            _ => None,
        }
    }
}

/// Two ranks with the same short code are the same rank.
pub proof fn lemma_short_code_injective(a: Value, b: Value)
    ensures
        short_code(a) == short_code(b) ==> a == b,
{
    if short_code(a) == short_code(b) {
        assert(short_code(a).len() == short_code(b).len());
        assert(short_code(a)[0] == short_code(b)[0]);
    }
}

/// Decoding the compact code of any card gives back that card.
pub proof fn lemma_code_round_trip(c: Card)
    ensures
        decode_card(card_code(c)) == Some(c),
{
    let s = card_code(c);
    assert(s.drop_last() =~= short_code(c.value));
    assert(s.last() == suit_letter(c.suit));
    assert forall|v: Value| #[trigger] short_code(v) == short_code(c.value) implies v == c.value by {
        lemma_short_code_injective(v, c.value);
    }
}

impl Card {
    /// The compact code of this card, such as "AS" for the Ace of Spades.
    pub fn code(&self) -> (r: String)
        ensures
            r@ == card_code(*self),
    {
        let mut r = self.value.short_name();
        let letter = match self.suit {
            Suit::Clubs => "C",
            Suit::Diamonds => "D",
            Suit::Hearts => "H",
            Suit::Spades => "S",
        };
        proof {
            reveal_strlit("C");
            reveal_strlit("D");
            reveal_strlit("H");
            reveal_strlit("S");
            assert(letter@ =~= seq![suit_letter(self.suit)]);
        }
        r.append(letter);
        proof {
            assert(r@ =~= card_code(*self));
        }
        r
    }
}

/// The rank whose short code is the one character `ch`, if any.
fn value_of_char(ch: char) -> (r: Option<Value>)
    ensures
        r == value_of_code(seq![ch]),
{
    proof {
        assert forall|v: Value| #[trigger] short_code(v) == seq![ch] <==> (short_code(v).len() == 1
            && short_code(v)[0] == ch) by {
            if short_code(v).len() == 1 && short_code(v)[0] == ch {
                assert(short_code(v) =~= seq![ch]);
            }
        }
    }
    match ch {
            'A' => Some(Value::Ace),
            '2' => Some(Value::Two),
            '3' => Some(Value::Three),
            '4' => Some(Value::Four),
            '5' => Some(Value::Five),
            '6' => Some(Value::Six),
            '7' => Some(Value::Seven),
            '8' => Some(Value::Eight),
            '9' => Some(Value::Nine),
            'J' => Some(Value::Jack),
            'Q' => Some(Value::Queen),
            'K' => Some(Value::King),
            _ => None,
    }
}

/// The suit whose letter is `ch`, if any.
fn suit_from_letter(ch: char) -> (r: Option<Suit>)
    ensures
        r == suit_of_letter(ch),
{
    match ch {
        'C' => Some(Suit::Clubs),
        'D' => Some(Suit::Diamonds),
        'H' => Some(Suit::Hearts),
        'S' => Some(Suit::Spades),
        _ => None,
    }
}

impl Card {
    /// Reads a compact code such as "AS" or "10H"; `None` when it denotes no card.
    pub fn from_code(code: &str) -> (r: Option<Card>)
        ensures
            r == decode_card(code@),
    {
        let n = code.unicode_len();
        if n < 2 || n > 3 {
            proof {
                if n > 0 {
                    assert forall|v: Value| short_code(v) != code@.drop_last() by {
                        assert(short_code(v).len() <= 2);
                    }
                }
            }
            return None;
        }
        let suit = match suit_from_letter(code.get_char(n - 1)) {
            Some(su) => su,
            None => {
                return None;
            },
        };
        let value = if n == 2 {
            let ch = code.get_char(0);
            proof {
                assert(code@.drop_last() =~= seq![ch]);
            }
            value_of_char(ch)
        } else {
            let first = code.get_char(0);
            let second = code.get_char(1);
            proof {
                assert(code@.drop_last() =~= seq![first, second]);
                assert forall|v: Value| v != Value::Ten implies short_code(v) != seq![first, second] by {
                    assert(short_code(v).len() == 1);
                }
            }
            if first == '1' && second == '0' {
                proof {
                    assert(seq![first, second] =~= short_code(Value::Ten));
                }
                Some(Value::Ten)
            } else {
                proof {
                    if seq![first, second] == short_code(Value::Ten) {
                        assert(seq![first, second][0] == '1');
                        assert(seq![first, second][1] == '0');
                    }
                }
                None
            }
        };
        match value {
            Some(v) => Some(Card { suit: suit, value: v }),
            None => None,
        }
    }
}

/// The long description of a card, such as "Ace of Spades".
pub open spec fn card_description(c: Card) -> Seq<char> {
    value_name(c.value) + " of "@ + suit_name(c.suit)
}

impl Card {
    pub fn describe(&self) -> (r: String)
        ensures
            r@ == card_description(*self),
    {
        let mut r = self.value.name();
        r.append(" of ");
        let suit = self.suit.name();
        r.append(suit.as_str());
        r
    }
}

} // verus!
