//! How much each move is worth next to the others: the share of each
//! allowed move in the safety of all of them.

use vstd::prelude::*;
use vstd::arithmetic::div_mod::lemma_div_by_self;
use crate::action::{Action, Direction, Movement};
use crate::algorithm::{
    landing,
    lemma_chance_at_most,
    lethal_cap,
    permutation,
    reserved,
    safe_possibility,
    spec_safe_possibility,
    ProbabilityTable,
};
use crate::cards::{spec_monus, CardID};
use crate::combinatorics::{hyper_den, lemma_hyper_den_bound, lemma_hyper_total};
use crate::fraction::{lemma_over_common_denominator, reduce, Fraction, Rational};
use crate::hand::{count_cards, count_in};
use crate::rest::RestCards;
use crate::rules::{can_go_back, can_go_forward, PlayerID, BOARD_END};

verus! {

/// Number of moves there are: one forward and one back for each rank.
pub const MOVES: usize = 10;

/// The move at a place of the list of all moves: by rank, forward before
/// back.
pub open spec fn move_at(place: int) -> Movement {
    Movement {
        card: CardID::of_rank(place / 2 + 1).unwrap(),
        direction: if place % 2 == 0 {
            Direction::Forward
        } else {
            Direction::Back
        },
    }
}

/// Whether the player may make the move: the card is in the hand and the
/// step stays on the board and short of the opponent.
pub open spec fn allowed(
    id: PlayerID,
    hand: Seq<CardID>,
    pos0: int,
    pos1: int,
    movement: Movement,
) -> bool {
    count_in(hand, movement.card) > 0 && match movement.direction {
        Direction::Forward => can_go_forward(id, movement.card, pos0, pos1),
        Direction::Back => can_go_back(id, movement.card, pos0, pos1),
    }
}

/// The safety of a move as a number of ordered hands of the opponent, out
/// of all that the table counts: none for a move that is not allowed or has
/// no safety.
pub open spec fn safe_hands(
    id: PlayerID,
    hand: Seq<CardID>,
    rest: Seq<nat>,
    pos0: int,
    pos1: int,
    table: ProbabilityTable,
    movement: Movement,
) -> int {
    if allowed(id, hand, pos0, pos1, movement) {
        match spec_safe_possibility(pos1 - pos0, rest, hand, table, Action::Move(movement)) {
            Some(safety) => safety.num * (hyper_den(table.total()) / (safety.den as nat)),
            None => 0,
        }
    } else {
        0
    }
}

/// The safe hands of the first `n` moves added up.
pub open spec fn safe_hands_upto(
    id: PlayerID,
    hand: Seq<CardID>,
    rest: Seq<nat>,
    pos0: int,
    pos1: int,
    table: ProbabilityTable,
    n: nat,
) -> int
    decreases n,
{
    if n == 0 {
        0
    } else {
        safe_hands_upto(id, hand, rest, pos0, pos1, table, (n - 1) as nat) + safe_hands(
            id,
            hand,
            rest,
            pos0,
            pos1,
            table,
            move_at(n - 1),
        )
    }
}

/// The worth of the move at `place`: its share in the safety of all moves.
/// A move that is not allowed has no worth, and no move has one where none
/// is safe at all.
pub open spec fn spec_worth(
    id: PlayerID,
    hand: Seq<CardID>,
    rest: Seq<nat>,
    pos0: int,
    pos1: int,
    table: ProbabilityTable,
    place: int,
) -> Option<Rational> {
    let all = safe_hands_upto(id, hand, rest, pos0, pos1, table, MOVES as nat);
    if all > 0 && allowed(id, hand, pos0, pos1, move_at(place)) {
        Some(Rational::of(safe_hands(id, hand, rest, pos0, pos1, table, move_at(place)), all))
    } else {
        None
    }
}

/// The safety of a move is a number of hands between none and all.
pub proof fn lemma_safe_hands(
    id: PlayerID,
    hand: Seq<CardID>,
    rest: Seq<nat>,
    pos0: int,
    pos1: int,
    table: ProbabilityTable,
    movement: Movement,
)
    requires
        table.wf(),
    ensures
        0 <= safe_hands(id, hand, rest, pos0, pos1, table, movement) <= hyper_den(table.total()),
        spec_safe_possibility(
            pos1 - pos0,
            rest,
            hand,
            table,
            Action::Move(movement),
        ) matches Some(safety) ==> safety.eqv(
            Rational::of(
                safety.num * (hyper_den(table.total()) / (safety.den as nat)),
                hyper_den(table.total()) as int,
            ),
        ),
{
    let den = hyper_den(table.total());
    match spec_safe_possibility(pos1 - pos0, rest, hand, table, Action::Move(movement)) {
        Some(safety) => {
            if safety == Rational::one() {
                assert(den / 1 == den);
                assert(1 * den == den * 1);
            } else {
                let dup = movement.direction == Direction::Forward && pos1 - pos0 == 2
                    * movement.card.rank();
                let there = CardID::of_rank(
                    landing(pos1 - pos0, movement.card, movement.direction),
                ).unwrap();
                let cap = lethal_cap(spec_monus(count_in(hand, there), reserved(dup)) as int);
                lemma_chance_at_most(table, there, cap, cap);
                lemma_div_by_self(den as int);
            }
        },
        None => {},
    }
}

/// The allowed moves with their worth: for each of the ten moves, by rank
/// and forward before back, its share in the safety of all allowed moves.
/// Player zero never stands beyond player one.
pub fn worth_of_moves(
    id: PlayerID,
    hands: &[CardID],
    rest: RestCards,
    p0_position: u8,
    p1_position: u8,
    table: &ProbabilityTable,
) -> (worth: Vec<Option<Fraction>>)
    requires
        p0_position <= p1_position,
    ensures
        worth@.len() == MOVES,
        forall|place: int|
            0 <= place < MOVES ==> {
                let want = spec_worth(
                    id,
                    hands@,
                    rest@,
                    p0_position as int,
                    p1_position as int,
                    *table,
                    place,
                );
                &&& (#[trigger] worth@[place]).is_some() == want.is_some()
                &&& worth@[place] matches Some(share) ==> share.wf() && share@.eqv(want.unwrap())
            },
{
    let ghost pos0 = p0_position as int;
    let ghost pos1 = p1_position as int;
    let distance = p1_position - p0_position;
    let total = table.unseen();
    proof {
        use_type_invariant(table);
        lemma_hyper_den_bound(total as nat, 260);
        lemma_hyper_total(0, total as nat);
    }
    let den = permutation(total, 5);
    let mut hands_safe: Vec<Option<u64>> = Vec::new();
    let mut all: u64 = 0;
    let mut place: usize = 0;
    while place < MOVES
        invariant
            place <= MOVES,
            table.wf(),
            pos0 == p0_position,
            pos1 == p1_position,
            pos0 <= pos1,
            distance == pos1 - pos0,
            den == hyper_den(table.total()),
            1 <= den <= 260 * 260 * 260 * 260 * 260,
            hands_safe@.len() == place,
            all == safe_hands_upto(id, hands@, rest@, pos0, pos1, *table, place as nat),
            0 <= all <= place * den,
            forall|k: int|
                0 <= k < place ==> {
                    &&& (#[trigger] hands_safe@[k]).is_some() == allowed(
                        id,
                        hands@,
                        pos0,
                        pos1,
                        move_at(k),
                    )
                    &&& hands_safe@[k] matches Some(n) ==> n == safe_hands(
                        id,
                        hands@,
                        rest@,
                        pos0,
                        pos1,
                        *table,
                        move_at(k),
                    )
                },
        decreases MOVES - place,
    {
        let card = match CardID::from_usize(place / 2 + 1) {
            Some(card) => card,
            None => CardID::One,
        };
        let rank = card.denote() as u16;
        let forward = place % 2 == 0;
        let direction = if forward {
            Direction::Forward
        } else {
            Direction::Back
        };
        let movement = Movement::new(card, direction);
        let can_go = match (id, forward) {
            (PlayerID::Zero, true) => p0_position as u16 + rank < p1_position as u16,
            (PlayerID::Zero, false) => p0_position as u16 >= rank + 1,
            (PlayerID::One, true) => p1_position as u16 > p0_position as u16 + rank,
            (PlayerID::One, false) => p1_position as u16 + rank <= BOARD_END as u16,
        };
        proof {
            lemma_safe_hands(id, hands@, rest@, pos0, pos1, *table, movement);
            assert(place * den + den == (place + 1) * den) by (nonlinear_arith);
            assert((place + 1) * den <= 10 * den) by (nonlinear_arith)
                requires
                    place < 10,
                    den >= 1,
            ;
        }
        if count_cards(hands, card) > 0 && can_go {
            let step = Action::Move(movement);
            let safe = match safe_possibility(distance, rest, hands, table, step) {
                Some(safety) => {
                    proof {
                        use_type_invariant(&safety);
                        let want = spec_safe_possibility(
                            pos1 - pos0,
                            rest@,
                            hands@,
                            *table,
                            Action::Move(movement),
                        ).unwrap();
                        let n = safe_hands(id, hands@, rest@, pos0, pos1, *table, movement);
                        assert(safety@.eqv(Rational::of(n, den as int))) by {
                            lemma_eqv_trans(safety@, want, Rational::of(n, den as int));
                        }
                        lemma_over_common_denominator(safety@, n, den as int);
                    }
                    safety.numer() * (den / safety.denom())
                },
                None => 0,
            };
            all = all + safe;
            hands_safe.push(Some(safe));
        } else {
            hands_safe.push(None);
        }
        place = place + 1;
    }
    let mut worth: Vec<Option<Fraction>> = Vec::new();
    let mut place: usize = 0;
    while place < MOVES
        invariant
            place <= MOVES,
            hands_safe@.len() == MOVES,
            worth@.len() == place,
            pos0 == p0_position,
            pos1 == p1_position,
            all == safe_hands_upto(id, hands@, rest@, pos0, pos1, *table, MOVES as nat),
            forall|k: int|
                0 <= k < MOVES ==> {
                    &&& (#[trigger] hands_safe@[k]).is_some() == allowed(
                        id,
                        hands@,
                        pos0,
                        pos1,
                        move_at(k),
                    )
                    &&& hands_safe@[k] matches Some(n) ==> n == safe_hands(
                        id,
                        hands@,
                        rest@,
                        pos0,
                        pos1,
                        *table,
                        move_at(k),
                    )
                },
            forall|k: int|
                0 <= k < place ==> {
                    let want = spec_worth(id, hands@, rest@, pos0, pos1, *table, k);
                    &&& (#[trigger] worth@[k]).is_some() == want.is_some()
                    &&& worth@[k] matches Some(share) ==> share.wf() && share@.eqv(want.unwrap())
                },
        decreases MOVES - place,
    {
        let share = match hands_safe[place] {
            Some(safe) => if all > 0 {
                Some(reduce(safe, all))
            } else {
                None
            },
            None => None,
        };
        worth.push(share);
        place = place + 1;
    }
    worth
}

/// Two quotients that are the same number as a third with a positive
/// denominator are the same number.
proof fn lemma_eqv_trans(a: Rational, b: Rational, c: Rational)
    requires
        b.den > 0,
        a.eqv(b),
        b.eqv(c),
    ensures
        a.eqv(c),
{
    assert((a.num * c.den) * b.den == (c.num * a.den) * b.den) by (nonlinear_arith)
        requires
            a.num * b.den == b.num * a.den,
            b.num * c.den == c.num * b.den,
    ;
    assert(a.num * c.den == c.num * a.den) by (nonlinear_arith)
        requires
            (a.num * c.den) * b.den == (c.num * a.den) * b.den,
            b.den > 0,
    ;
}

} // verus!
