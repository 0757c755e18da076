//! A named holder of cards.
use vstd::prelude::*;
use crate::card::{Card, card_description};

verus! {

/// A player: a name and the cards dealt to it, in the order dealt.
pub struct Player {
    pub cards: Vec<Card>,
    pub name: String,
}

impl Player {
    pub fn new(name: String) -> (r: Player)
        ensures
            r.cards@.len() == 0,
            r.name@ == name@,
    {
        Player { cards: Vec::new(), name: name }
    }

    /// Adds one card after those already held.
    pub fn add_card(&mut self, card: Card)
        ensures
            final(self).cards@ == old(self).cards@.push(card),
            final(self).name == old(self).name,
    {
        self.cards.push(card);
    }

    /// Adds the given cards, in order, after those already held.
    pub fn add_cards(&mut self, cards: Vec<Card>)
        ensures
            final(self).cards@ == old(self).cards@ + cards@,
            final(self).name == old(self).name,
    {
        let mut i: usize = 0;
        while i < cards.len()
            invariant
                i <= cards@.len(),
                self.cards@ == old(self).cards@ + cards@.subrange(0, i as int),
                self.name == old(self).name,
            decreases cards@.len() - i,
        {
            self.add_card(cards[i]);
            proof {
                assert(cards@.subrange(0, i as int + 1) =~= cards@.subrange(0, i as int).push(cards@[i as int]));
            }
            i += 1;
        }
        assert(cards@.subrange(0, cards@.len() as int) =~= cards@);
    }
}

/// One line per card, each a tab, a dash and the card's description.
pub open spec fn card_lines(cards: Seq<Card>) -> Seq<char>
    decreases cards.len(),
{
    if cards.len() == 0 {
        Seq::empty()
    } else {
        card_lines(cards.drop_last()) + "\t- "@ + card_description(cards.last()) + "\n"@
    }
}

/// The listing of a player: a line with the name, then a line per card.
pub open spec fn player_listing(name: Seq<char>, cards: Seq<Card>) -> Seq<char> {
    name + " has:\n"@ + card_lines(cards)
}

impl Player {
    /// The player's name on one line, then each card held on a line of its own.
    pub fn describe(&self) -> (r: String)
        ensures
            r@ == player_listing(self.name@, self.cards@),
    {
        let mut r = self.name.clone();
        r.append(" has:\n");
        let mut i: usize = 0;
        while i < self.cards.len()
            invariant
                i <= self.cards@.len(),
                r@ == self.name@ + " has:\n"@ + card_lines(self.cards@.subrange(0, i as int)),
            decreases self.cards@.len() - i,
        {
            r.append("\t- ");
            let line = self.cards[i].describe();
            r.append(line.as_str());
            r.append("\n");
            proof {
                let next = self.cards@.subrange(0, i as int + 1);
                assert(next.drop_last() =~= self.cards@.subrange(0, i as int));
                assert(r@ =~= self.name@ + " has:\n"@ + card_lines(next));
            }
            i += 1;
        }
        assert(self.cards@.subrange(0, self.cards@.len() as int) =~= self.cards@);
        r
    }
}

} // verus!
