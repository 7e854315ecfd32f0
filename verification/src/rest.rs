//! The tally of cards that neither player has been seen to play.

use vstd::prelude::*;
use crate::action::Action;
use crate::cards::{spec_min5, spec_monus, CardID, Maisuu};

verus! {

/// The views of a row of counts.
pub open spec fn counts_view(counts: Seq<Maisuu>) -> Seq<nat> {
    Seq::new(counts.len(), |i: int| counts[i]@)
}

/// A tally after one observed play: a move takes one copy of its rank out,
/// an attack twice the copies it spends, and no count goes below zero.
pub open spec fn tally_after(tally: Seq<nat>, action: Action) -> Seq<nat> {
    match action {
        Action::Move(m) => tally.update(m.card.rank() - 1, spec_monus(tally[m.card.rank() - 1], 1)),
        Action::Attack(a) => tally.update(
            a.card.rank() - 1,
            spec_monus(tally[a.card.rank() - 1], spec_min5(a.quantity@ * 2)),
        ),
    }
}

/// For each rank, how many of its five copies have not been seen played.
#[derive(Debug, PartialEq, Eq, Hash, Clone, Copy)]
pub struct RestCards {
    cards: [Maisuu; 5],
}

impl View for RestCards {
    type V = Seq<nat>;

    closed spec fn view(&self) -> Seq<nat> {
        counts_view(self.cards@)
    }
}

/// A tally is valid when it has a count of at most five for each of the five
/// ranks.
pub open spec fn tally_wf(tally: Seq<nat>) -> bool {
    &&& tally.len() == 5
    &&& forall|i: int| 0 <= i < 5 ==> #[trigger] tally[i] <= 5
}

impl RestCards {
    /// Every tally that executable code can hold is valid.
    #[verifier::type_invariant]
    pub open spec fn wf(self) -> bool {
        tally_wf(self@)
    }

    /// The tally at the start of a round: five unseen copies of every rank.
    pub fn new() -> (rest: RestCards)
        ensures
            rest@ == Seq::new(5, |i: int| 5nat),
    {
        let cards = [Maisuu::max(); 5];
        RestCards { cards }
    }

    /// The tally that holds the five counts of `slice`, by rank.
    pub fn from_slice(slice: &[Maisuu]) -> (rest: RestCards)
        requires
            slice@.len() == 5,
        ensures
            rest@ == counts_view(slice@),
    {
        let (c0, c1, c2, c3, c4) = (slice[0], slice[1], slice[2], slice[3], slice[4]);
        proof {
            use_type_invariant(&c0);
            use_type_invariant(&c1);
            use_type_invariant(&c2);
            use_type_invariant(&c3);
            use_type_invariant(&c4);
        }
        let cards = [c0, c1, c2, c3, c4];
        RestCards { cards }
    }

    /// Takes the cards of an observed play out of the tally.
    pub fn used_card(&mut self, action: Action)
        ensures
            final(self)@ == tally_after(old(self)@, action),
    {
        proof {
            use_type_invariant(&*self);
        }
        let mut cards = self.cards;
        match action {
            Action::Move(movement) => {
                let i: usize = movement.card.denote_usize() - 1;
                let left = cards[i].saturating_sub(Maisuu::one());
                cards[i] = left;
            },
            Action::Attack(attack) => {
                let i: usize = attack.card.denote_usize() - 1;
                let left = cards[i].saturating_sub(attack.quantity.saturating_mul(2));
                cards[i] = left;
            },
        }
        assert(counts_view(cards@) =~= tally_after(old(self)@, action));
        *self = RestCards { cards };
    }

    /// The count at place `index`, which is that of rank `index + 1`.
    pub fn get(&self, index: usize) -> (m: Maisuu)
        requires
            index < 5,
        ensures
            m@ == self@[index as int],
            m@ <= 5,
    {
        proof {
            use_type_invariant(self);
            assert(self@[index as int] <= 5);
        }
        self.cards[index]
    }

    /// The count of unseen copies of `card`.
    pub fn of(&self, card: CardID) -> (m: Maisuu)
        ensures
            m@ == self@[card.rank() - 1],
            m@ <= 5,
    {
        self.get(card.denote_usize() - 1)
    }

    /// The five counts, by rank.
    pub fn to_array(&self) -> (counts: [Maisuu; 5])
        ensures
            counts_view(counts@) == self@,
    {
        self.cards
    }

    /// The counts of all ranks added up.
    pub fn total(&self) -> (n: u8)
        ensures
            n == self@[0] + self@[1] + self@[2] + self@[3] + self@[4],
            n <= 25,
    {
        self.get(0).denote() + self.get(1).denote() + self.get(2).denote() + self.get(3).denote()
            + self.get(4).denote()
    }
}

impl Default for RestCards {
    fn default() -> (rest: RestCards)
        ensures
            rest@ == Seq::new(5, |i: int| 5nat),
    {
        RestCards::new()
    }
}

} // verus!
