//! Moves and attacks.

use vstd::prelude::*;
use vstd::string::StringSliceAdditionalSpecFns;
use crate::cards::{CardID, Maisuu};

verus! {

/// The byte that writes the letter `F`.
pub const FORWARD_LETTER: u8 = 70;

/// The byte that writes the letter `B`.
pub const BACK_LETTER: u8 = 66;

/// Why a text names no direction.
pub const NOT_A_DIRECTION: &'static str = "a direction is F or B";

/// Which way a move goes: towards the opponent or away.
#[derive(Clone, Copy, Hash, PartialEq, Eq, Debug, Structural)]
pub enum Direction {
    Forward,
    Back,
}

impl Direction {
    /// The number that stands for the direction: 0 forward, 1 back.
    pub open spec fn code(self) -> int {
        match self {
            Direction::Forward => 0,
            Direction::Back => 1,
        }
    }

    /// The direction as a `u8`: 0 forward, 1 back.
    pub fn denote(&self) -> (n: u8)
        ensures
            n == self.code(),
    {
        match self {
            Direction::Forward => 0,
            Direction::Back => 1,
        }
    }

    /// The direction that the bytes of a text name: the one letter `F`
    /// names forward, the one letter `B` back, and any other text none.
    pub open spec fn named_by(bytes: Seq<u8>) -> Result<Direction, &'static str> {
        if bytes == seq![FORWARD_LETTER] {
            Ok(Direction::Forward)
        } else if bytes == seq![BACK_LETTER] {
            Ok(Direction::Back)
        } else {
            Err(NOT_A_DIRECTION)
        }
    }

    /// The direction that a letter names: `F` forward, `B` back. Any other
    /// text names none.
    pub fn from_letter(s: &str) -> (r: Result<Direction, &'static str>)
        ensures
            r == Direction::named_by(s.spec_bytes()),
    {
        let bytes = s.as_bytes();
        if bytes.len() == 1 && bytes[0] == FORWARD_LETTER {
            Ok(Direction::Forward)
        } else if bytes.len() == 1 && bytes[0] == BACK_LETTER {
            Ok(Direction::Back)
        } else {
            Err(NOT_A_DIRECTION)
        }
    }

    /// The letter that names the direction: `F` or `B`.
    pub fn as_str(&self) -> (s: &'static str)
        ensures
            s@ == (match *self {
                Direction::Forward => "F"@,
                Direction::Back => "B"@,
            }),
    {
        match self {
            Direction::Forward => "F",
            Direction::Back => "B",
        }
    }
}

impl core::str::FromStr for Direction {
    type Err = &'static str;

    /// The direction that a letter names: `F` forward, `B` back. Any other
    /// text is refused with `NOT_A_DIRECTION`.
    fn from_str(s: &str) -> (r: Result<Direction, &'static str>)
        ensures
            r == Direction::named_by(s.spec_bytes()),
    {
        Direction::from_letter(s)
    }
}

/// One card spent to move by its rank.
#[derive(Clone, Copy, Hash, PartialEq, Eq, Debug, Structural)]
pub struct Movement {
    pub card: CardID,
    pub direction: Direction,
}

impl Movement {
    /// The move with `card` in `direction`.
    pub fn new(card: CardID, direction: Direction) -> (m: Movement)
        ensures
            m == (Movement { card, direction }),
    {
        Movement { card, direction }
    }

    /// The card spent on the move.
    pub fn card(&self) -> (card: CardID)
        ensures
            card == self.card,
    {
        self.card
    }

    /// Which way the move goes.
    pub fn direction(&self) -> (direction: Direction)
        ensures
            direction == self.direction,
    {
        self.direction
    }
}

/// Some copies of one rank spent to attack at the distance of that rank.
#[derive(Clone, Copy, Hash, PartialEq, Eq, Debug, Structural)]
pub struct Attack {
    pub card: CardID,
    pub quantity: Maisuu,
}

impl Attack {
    /// The attack with `quantity` copies of `card`.
    pub fn new(card: CardID, quantity: Maisuu) -> (a: Attack)
        ensures
            a == (Attack { card, quantity }),
    {
        Attack { card, quantity }
    }

    /// The rank of the cards spent on the attack.
    pub fn card(&self) -> (card: CardID)
        ensures
            card == self.card,
    {
        self.card
    }

    /// How many cards the attack spends.
    pub fn quantity(&self) -> (quantity: Maisuu)
        ensures
            quantity == self.quantity,
    {
        self.quantity
    }
}

/// What a player does on a turn.
#[derive(Clone, Copy, Hash, PartialEq, Eq, Debug, Structural)]
pub enum Action {
    Move(Movement),
    Attack(Attack),
}

impl Action {
    /// Number of distinct actions with a count of at least one: five moves
    /// forward, five back, and five counts of each of five ranks to attack.
    pub const COUNT: usize = 35;

    /// The place of an action in the list of all actions: moves forward by
    /// rank, then moves back by rank, then attacks by rank and count.
    pub open spec fn index_of(self) -> int {
        match self {
            Action::Move(m) => match m.direction {
                Direction::Forward => m.card.rank() - 1,
                Direction::Back => 5 + (m.card.rank() - 1),
            },
            Action::Attack(a) => 10 + 5 * (a.card.rank() - 1) + (a.quantity@ - 1),
        }
    }

    /// The action at place `idx` of the list of all actions.
    pub open spec fn at_index(idx: int) -> Action {
        if idx < 5 {
            Action::Move(
                Movement { card: CardID::of_rank(idx + 1).unwrap(), direction: Direction::Forward },
            )
        } else if idx < 10 {
            Action::Move(
                Movement { card: CardID::of_rank(idx - 4).unwrap(), direction: Direction::Back },
            )
        } else {
            Action::Attack(
                Attack {
                    card: CardID::of_rank((idx - 10) / 5 + 1).unwrap(),
                    quantity: Maisuu::of_nat(((idx - 10) % 5 + 1) as nat),
                },
            )
        }
    }

    /// The place of this action in the list of all actions. An attack must
    /// spend at least one card.
    pub fn as_index(&self) -> (idx: usize)
        requires
            self matches Action::Attack(a) ==> a.quantity@ >= 1,
        ensures
            idx == self.index_of(),
            idx < 35,
    {
        match self {
            Action::Move(movement) => {
                match movement.direction {
                    Direction::Forward => movement.card.denote_usize() - 1,
                    Direction::Back => 5 + (movement.card.denote_usize() - 1),
                }
            },
            Action::Attack(attack) => {
                10 + 5 * (attack.card.denote_usize() - 1) + (attack.quantity.denote_usize() - 1)
            },
        }
    }

    /// The action at place `idx` of the list of all actions.
    pub fn from_index(idx: usize) -> (action: Action)
        requires
            idx < 35,
        ensures
            action == Action::at_index(idx as int),
            action matches Action::Attack(a) ==> 1 <= a.quantity@ <= 5,
    {
        if idx < 5 {
            match CardID::from_usize(idx + 1) {
                Some(card) => Action::Move(Movement { card, direction: Direction::Forward }),
                None => Action::Move(Movement { card: CardID::One, direction: Direction::Forward }),
            }
        } else if idx < 10 {
            match CardID::from_usize(idx - 4) {
                Some(card) => Action::Move(Movement { card, direction: Direction::Back }),
                None => Action::Move(Movement { card: CardID::One, direction: Direction::Back }),
            }
        } else {
            let x: usize = idx - 10;
            match (CardID::from_usize(x / 5 + 1), Maisuu::from_usize(x % 5 + 1)) {
                (Some(card), Some(quantity)) => Action::Attack(Attack { card, quantity }),
                _ => Action::Attack(Attack { card: CardID::One, quantity: Maisuu::one() }),
            }
        }
    }

    /// The movement, where the action is a move.
    pub fn get_movement(self) -> (m: Option<Movement>)
        ensures
            m == (match self {
                Action::Move(movement) => Some(movement),
                Action::Attack(_) => None::<Movement>,
            }),
    {
        match self {
            Action::Move(movement) => Some(movement),
            Action::Attack(_) => None,
        }
    }
}

/// Listing an action and reading the list at that place gives the action
/// back, for every move and for every attack that spends one to five cards.
pub proof fn lemma_index_round_trip(action: Action)
    requires
        action matches Action::Attack(a) ==> 1 <= a.quantity@ <= 5,
    ensures
        0 <= action.index_of() < 35,
        Action::at_index(action.index_of()) == action,
{
    match action {
        Action::Move(_) => {},
        Action::Attack(a) => {
            crate::cards::lemma_count_of_view(a.quantity);
        },
    }
}

/// Reading the list of actions at a place and listing what was read gives
/// the place back.
pub proof fn lemma_at_index_round_trip(idx: int)
    requires
        0 <= idx < 35,
    ensures
        Action::at_index(idx).index_of() == idx,
{
    if idx >= 10 {
        crate::cards::lemma_count_of_nat(((idx - 10) % 5 + 1) as nat);
    }
}

} // verus!
