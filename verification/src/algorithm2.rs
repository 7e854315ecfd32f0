//! Choosing an action: which ranks may be spent, the opening move, the
//! move towards a comfortable distance, and the move in the middle of a
//! round.

use vstd::prelude::*;
use crate::action::{Action, Attack, Direction, Movement};
use crate::algorithm::{
    full_attack,
    lemma_safe_is_chance,
    lemma_win_is_chance,
    safe_possibility,
    spec_safe_possibility,
    spec_win_poss_attack,
    win_poss_attack,
    ProbabilityTable,
};
use crate::cards::{lemma_count_of_view, spec_monus, CardID, Maisuu};
use crate::combinatorics::lemma_hyper_total;
use crate::fraction::{
    lemma_le_respects_eqv,
    lemma_unit_fractions,
    reduce,
    Fraction,
    Rational,
};
use crate::hand::{card_map_from_hands, cards_in, count_in, counts_of, rank_at, sum_upto};
use crate::rest::{counts_view, RestCards};

verus! {

/// Number of cards of the two highest ranks in a hand.
pub open spec fn spec_count_4and5(hand: Seq<nat>) -> nat {
    hand[3] + hand[4]
}

/// Which ranks the hand may spend.
///
/// Rank one only with more copies than three less the copies of it already
/// seen; rank two only with a spare copy; rank three whenever it is held;
/// ranks four and five below a distance of twelve, or with two of them in
/// the hand.
pub open spec fn spec_can_use(hand: Seq<nat>, rest: Seq<nat>, distance: int) -> Seq<bool> {
    seq![
        hand[0] > spec_monus(3, spec_monus(5, rest[0])),
        hand[1] > 1,
        hand[2] > 0,
        distance < 12 || spec_count_4and5(hand) >= 2,
        distance < 12 || spec_count_4and5(hand) >= 2,
    ]
}

/// For each rank, whether the hand may spend it now.
#[derive(Debug)]
pub struct AcceptableNumbers {
    can_use: [bool; 5],
}

impl View for AcceptableNumbers {
    type V = Seq<bool>;

    closed spec fn view(&self) -> Seq<bool> {
        self.can_use@
    }
}

impl AcceptableNumbers {
    /// Whether cards of rank four or five may be spent.
    pub fn can_use4and5(hands: [Maisuu; 5], distance: u8) -> (b: bool)
        ensures
            b == (distance < 12 || spec_count_4and5(counts_view(hands@)) >= 2),
    {
        if distance >= 12 {
            count_4and5(hands) >= 2
        } else {
            true
        }
    }

    /// Whether cards of rank three may be spent.
    pub fn can_use3(hands: [Maisuu; 5]) -> (b: bool)
        ensures
            b == (counts_view(hands@)[2] > 0),
    {
        hands[2].denote() > 0
    }

    /// Whether cards of rank two may be spent.
    pub fn can_use2(hands: [Maisuu; 5]) -> (b: bool)
        ensures
            b == (counts_view(hands@)[1] > 1),
    {
        hands[1].denote() > 1
    }

    /// Whether cards of rank one may be spent.
    pub fn can_use1(hands: [Maisuu; 5], rest: RestCards) -> (b: bool)
        ensures
            b == (counts_view(hands@)[0] > spec_monus(3, spec_monus(5, rest@[0]))),
    {
        let usedcard_1 = Maisuu::five().saturating_sub(rest.get(0));
        hands[0].denote() > Maisuu::three().saturating_sub(usedcard_1).denote()
    }

    /// The ranks that may be spent from `hands` at `distance` while `rest`
    /// copies of each rank are unseen.
    pub fn new(hands: [Maisuu; 5], rest: RestCards, distance: u8) -> (acceptable: AcceptableNumbers)
        ensures
            acceptable@ == spec_can_use(counts_view(hands@), rest@, distance as int),
    {
        let can_use = [
            Self::can_use1(hands, rest),
            Self::can_use2(hands),
            Self::can_use3(hands),
            Self::can_use4and5(hands, distance),
            Self::can_use4and5(hands, distance),
        ];
        AcceptableNumbers { can_use }
    }

    /// Whether the rank at place `index`, which is rank `index + 1`, may be
    /// spent.
    pub fn get(&self, index: usize) -> (b: bool)
        requires
            index < 5,
        ensures
            b == self@[index as int],
    {
        self.can_use[index]
    }

    /// Sets whether the rank at place `index` may be spent.
    pub fn set(&mut self, index: usize, value: bool)
        requires
            index < 5,
        ensures
            final(self)@ == old(self)@.update(index as int, value),
    {
        self.can_use[index] = value;
    }
}

/// Number of cards of the two highest ranks in a hand.
pub fn count_4and5(hands: [Maisuu; 5]) -> (n: u8)
    ensures
        n == spec_count_4and5(counts_view(hands@)),
{
    hands[3].denote() + hands[4].denote()
}

/// For each rank, whether the hand holds three or more copies.
pub fn more_than_three(hands: &[u8; 5]) -> (marks: Vec<bool>)
    ensures
        marks@ == Seq::new(5, |i: int| hands@[i] > 2),
{
    let mut marks: Vec<bool> = Vec::new();
    let mut i: usize = 0;
    while i < 5
        invariant
            i <= 5,
            marks@ == Seq::new(i as nat, |k: int| hands@[k] > 2),
        decreases 5 - i,
    {
        marks.push(hands[i] > 2);
        i = i + 1;
    }
    marks
}

/// The ranks of a hand added up, each as often as it is held.
pub open spec fn rank_sum(hand: Seq<nat>) -> nat {
    hand[0] + 2 * hand[1] + 3 * hand[2] + 4 * hand[3] + 5 * hand[4]
}

/// Number of cards in a hand that is given by its counts.
pub fn count_held(hands: &[Maisuu; 5]) -> (cards: u8)
    ensures
        cards == cards_in(counts_view(hands@)),
        cards <= 25,
{
    proof {
        reveal_with_fuel(sum_upto, 6);
    }
    hands[0].denote() + hands[1].denote() + hands[2].denote() + hands[3].denote()
        + hands[4].denote()
}

/// The mean rank of the cards of a hand: the ranks held added up, over the
/// number of cards held. The mean of no cards is taken as zero.
pub fn calc_ave(hands: &[Maisuu; 5]) -> (mean: Fraction)
    ensures
        mean@.lowest_terms(),
        cards_in(counts_view(hands@)) > 0 ==> mean@.eqv(
            Rational::of(
                rank_sum(counts_view(hands@)) as int,
                cards_in(counts_view(hands@)) as int,
            ),
        ),
        cards_in(counts_view(hands@)) == 0 ==> mean@ == Rational::zero(),
{
    let cards: u64 = count_held(hands) as u64;
    let total: u64 = hands[0].denote() as u64 + 2 * (hands[1].denote() as u64) + 3 * (
    hands[2].denote() as u64) + 4 * (hands[3].denote() as u64) + 5 * (hands[4].denote() as u64);
    if cards == 0 {
        proof {
            lemma_unit_fractions();
        }
        Fraction::zero()
    } else {
        reduce(total, cards)
    }
}

/// Why there is no opening move at a distance of twelve or less.
pub const NOT_OPENING: &'static str = "the opening move is for a distance above 12";

/// The highest of the first `n` ranks that may be spent and is held, as a
/// place in the row of counts.
pub open spec fn highest_usable(hand: Seq<nat>, can_use: Seq<bool>, n: nat) -> Option<int>
    decreases n,
{
    if n == 0 {
        None
    } else if can_use[n - 1] && hand[n - 1] > 0 {
        Some(n - 1)
    } else {
        highest_usable(hand, can_use, (n - 1) as nat)
    }
}

/// A move forward with `card`.
pub open spec fn forward(card: CardID) -> Action {
    Action::Move(Movement { card, direction: Direction::Forward })
}

/// Whether the mean rank of the cards of a hand is below three. No cards
/// have no mean, and none below three.
pub open spec fn mean_below_three(hand: Seq<nat>) -> bool {
    cards_in(hand) > 0 && rank_sum(hand) < 3 * cards_in(hand)
}

/// The opening move, for a distance above twelve only.
///
/// It goes forward with the highest rank that may be spent and is held.
/// Where there is none, it goes forward with rank two if the mean rank of
/// the cards held is below three, and with rank five if not.
pub open spec fn spec_initial_move(hand: Seq<nat>, distance: int, can_use: Seq<bool>) -> Option<
    Action,
> {
    if distance <= 12 {
        None
    } else {
        match highest_usable(hand, can_use, 5) {
            Some(place) => Some(forward(rank_at(place))),
            None => if mean_below_three(hand) {
                Some(forward(CardID::Two))
            } else {
                Some(forward(CardID::Five))
            },
        }
    }
}

/// A fraction that equals `x / n` is at least three exactly when `x` is at
/// least three times `n`.
proof fn lemma_mean_below_three(mean: Rational, three: Rational, x: int, n: int)
    requires
        mean.proper(),
        n > 0,
        mean.eqv(Rational::of(x, n)),
        three == Rational::of(3, 1),
    ensures
        three.le(mean) <==> x >= 3 * n,
{
    assert(mean.num * n == x * mean.den);
    assert(three.le(mean) <==> 3 * mean.den <= mean.num) by {
        assert(three.num * mean.den == 3 * mean.den);
        assert(mean.num * three.den == mean.num);
    }
    if 3 * mean.den <= mean.num {
        assert(3 * n <= x) by (nonlinear_arith)
            requires
                3 * mean.den <= mean.num,
                mean.num * n == x * mean.den,
                n > 0,
                mean.den > 0,
        ;
    }
    if 3 * n <= x {
        assert(3 * mean.den <= mean.num) by (nonlinear_arith)
            requires
                3 * n <= x,
                mean.num * n == x * mean.den,
                n > 0,
                mean.den > 0,
        ;
    }
}

/// The opening move: see `spec_initial_move`. At a distance of twelve or
/// less it is refused with `NOT_OPENING`.
pub fn initial_move(hands: &[Maisuu; 5], distance: u8, acceptable: &AcceptableNumbers) -> (r:
    Result<Action, &'static str>)
    ensures
        r.is_ok() <==> distance > 12,
        r matches Ok(action) ==> Some(action) == spec_initial_move(
            counts_view(hands@),
            distance as int,
            acceptable@,
        ),
        r matches Err(reason) ==> reason == NOT_OPENING,
{
    if distance <= 12 {
        return Err(NOT_OPENING);
    }
    let ghost hand = counts_view(hands@);
    let mut i: usize = 5;
    while i > 0
        invariant
            i <= 5,
            distance > 12,
            hand == counts_view(hands@),
            highest_usable(hand, acceptable@, 5) == highest_usable(hand, acceptable@, i as nat),
        decreases i,
    {
        if acceptable.get(i - 1) && hands[i - 1].denote() > 0 {
            return match CardID::from_usize(i) {
                Some(card) => Ok(Action::Move(Movement::new(card, Direction::Forward))),
                None => Err(NOT_OPENING),
            };
        }
        i = i - 1;
    }
    if count_held(hands) == 0 {
        return Ok(Action::Move(Movement::new(CardID::Five, Direction::Forward)));
    }
    let average = calc_ave(hands);
    proof {
        lemma_mean_below_three(
            average@,
            Rational::of(3, 1),
            rank_sum(hand) as int,
            cards_in(hand) as int,
        );
    }
    if !average.ge(&Fraction::from_integer(3)) {
        Ok(Action::Move(Movement::new(CardID::Two, Direction::Forward)))
    } else {
        Ok(Action::Move(Movement::new(CardID::Five, Direction::Forward)))
    }
}

/// The distances that one card of each of five ranks can bring about: first
/// those after a move forward with each, then those after a move back. Each
/// rank must be below the distance, and no distance reached above 127.
pub fn reachable(hands: &[u8; 5], distance: u8) -> (distances: Vec<i8>)
    requires
        forall|i: int| 0 <= i < 5 ==> hands@[i] < distance,
        forall|i: int| 0 <= i < 5 ==> distance + hands@[i] <= 127,
    ensures
        distances@.len() == 10,
        forall|i: int| 0 <= i < 5 ==> distances@[i] == distance - hands@[i],
        forall|i: int| 0 <= i < 5 ==> distances@[5 + i] == distance + hands@[i],
{
    let mut distances: Vec<i8> = Vec::new();
    let mut i: usize = 0;
    while i < 5
        invariant
            i <= 5,
            forall|k: int| 0 <= k < 5 ==> hands@[k] < distance,
            forall|k: int| 0 <= k < 5 ==> distance + hands@[k] <= 127,
            distances@.len() == i,
            forall|k: int| 0 <= k < i ==> distances@[k] == distance - hands@[k],
        decreases 5 - i,
    {
        distances.push((distance - hands[i]) as i8);
        i = i + 1;
    }
    let mut i: usize = 0;
    while i < 5
        invariant
            i <= 5,
            forall|k: int| 0 <= k < 5 ==> distance + hands@[k] <= 127,
            distances@.len() == 5 + i,
            forall|k: int| 0 <= k < 5 ==> distances@[k] == distance - hands@[k],
            forall|k: int| 0 <= k < i ==> distances@[5 + k] == distance + hands@[k],
        decreases 5 - i,
    {
        distances.push((distance + hands[i]) as i8);
        i = i + 1;
    }
    distances
}

/// The move that changes `distance` into `n` with one card, if one card
/// can: back where `n` is larger, forward where it is smaller.
pub open spec fn spec_action_togo(n: int, distance: int) -> Option<Action> {
    if n > distance {
        match CardID::of_rank(n - distance) {
            Some(card) => Some(Action::Move(Movement { card, direction: Direction::Back })),
            None => None,
        }
    } else if n < distance {
        match CardID::of_rank(distance - n) {
            Some(card) => Some(Action::Move(Movement { card, direction: Direction::Forward })),
            None => None,
        }
    } else {
        None
    }
}

/// The move that changes `distance` into `n` with one card, if one card can.
pub fn action_togo(n: u8, distance: u8) -> (action: Option<Action>)
    ensures
        action == spec_action_togo(n as int, distance as int),
{
    if n > distance {
        match CardID::from_u8(n - distance) {
            Some(card) => Some(Action::Move(Movement::new(card, Direction::Back))),
            None => None,
        }
    } else if n < distance {
        match CardID::from_u8(distance - n) {
            Some(card) => Some(Action::Move(Movement::new(card, Direction::Forward))),
            None => None,
        }
    } else {
        None
    }
}

/// The move to distance `goal`, taken only if it goes forward with a card
/// that is held and may be spent.
pub open spec fn step_to(goal: int, hand: Seq<nat>, distance: int, can_use: Seq<bool>) -> Option<
    Action,
> {
    match spec_action_togo(goal, distance) {
        Some(Action::Move(movement)) => if movement.direction == Direction::Forward
            && hand[movement.card.rank() - 1] > 0 && can_use[movement.card.rank() - 1] {
            Some(Action::Move(movement))
        } else {
            None
        },
        _ => None,
    }
}

/// The move to one of the two comfortable distances: to seven if that move
/// can be taken, else to two if that one can.
pub open spec fn spec_should_go_2_7(hand: Seq<nat>, distance: int, rest: Seq<nat>) -> Option<
    Action,
> {
    let can_use = spec_can_use(hand, rest, distance);
    match step_to(7, hand, distance, can_use) {
        Some(action) => Some(action),
        None => step_to(2, hand, distance, can_use),
    }
}

/// The move to distance `goal`, if it can be taken: see `step_to`.
fn try_step(goal: u8, hands: &[Maisuu; 5], distance: u8, acceptable: &AcceptableNumbers) -> (r:
    Option<Action>)
    ensures
        r == step_to(goal as int, counts_view(hands@), distance as int, acceptable@),
{
    let togo = action_togo(goal, distance);
    match togo {
        Some(Action::Move(movement)) => {
            let place = movement.card().denote_usize() - 1;
            if hands[place].denote() != 0 && movement.direction() == Direction::Forward
                && acceptable.get(place) {
                togo
            } else {
                None
            }
        },
        _ => None,
    }
}

/// The move to one of the two comfortable distances, seven before two: see
/// `spec_should_go_2_7`.
pub fn should_go_2_7(
    hands: [Maisuu; 5],
    distance: u8,
    rest: RestCards,
    _table: &ProbabilityTable,
) -> (r: Option<Action>)
    ensures
        r == spec_should_go_2_7(counts_view(hands@), distance as int, rest@),
{
    let acceptable = AcceptableNumbers::new(hands, rest, distance);
    match try_step(7, &hands, distance, &acceptable) {
        Some(action) => Some(action),
        None => try_step(2, &hands, distance, &acceptable),
    }
}

/// The chance from which an action is taken in the middle of a round.
pub open spec fn three_quarters() -> Rational {
    Rational::of(3, 4)
}

/// The action for the middle of a round, if one is good enough.
///
/// At a distance of one to five, that is the attack with every held copy of
/// the matching rank, if it wins with a chance of at least three quarters.
/// Failing that, it is the move to a comfortable distance, if there is one
/// and it is safe with a chance of at least three quarters. A hand of more
/// than five cards gets no action.
pub open spec fn spec_middle_move(
    hand: Seq<CardID>,
    distance: int,
    rest: Seq<nat>,
    table: ProbabilityTable,
) -> Option<Action> {
    let counts = counts_of(hand);
    let attack = full_attack(counts, distance);
    if hand.len() > 5 {
        None
    } else if 1 <= distance <= 5 && three_quarters().le(
        spec_win_poss_attack(rest, hand, table, attack).unwrap(),
    ) {
        Some(attack)
    } else {
        match spec_should_go_2_7(counts, distance, rest) {
            Some(step) => match spec_safe_possibility(distance, rest, hand, table, step) {
                Some(safety) => if three_quarters().le(safety) {
                    Some(step)
                } else {
                    None
                },
                None => None,
            },
            None => None,
        }
    }
}

/// The action for the middle of a round: see `spec_middle_move`.
pub fn middle_move(hands: &[CardID], distance: u8, rest: RestCards, table: &ProbabilityTable) -> (r:
    Option<Action>)
    ensures
        r == spec_middle_move(hands@, distance as int, rest@, *table),
{
    let counts = match card_map_from_hands(hands) {
        Some(counts) => counts,
        None => {
            return None;
        },
    };
    proof {
        use_type_invariant(table);
    }
    let threshold = reduce(3, 4);
    if 1 <= distance && distance <= 5 {
        let card = match CardID::from_u8(distance) {
            Some(card) => card,
            None => {
                return None;
            },
        };
        let have = counts[(distance - 1) as usize];
        let att_action = Action::Attack(Attack::new(card, have));
        proof {
            use_type_invariant(&have);
            lemma_count_of_view(have);
            lemma_win_is_chance(rest@, hands@, *table, att_action);
        }
        match win_poss_attack(rest, hands, table, att_action) {
            Some(chance) => {
                proof {
                    lemma_le_respects_eqv(
                        threshold@,
                        chance@,
                        three_quarters(),
                        spec_win_poss_attack(rest@, hands@, *table, att_action).unwrap(),
                    );
                }
                if chance.ge(&threshold) {
                    return Some(att_action);
                }
            },
            None => {},
        }
    }
    match should_go_2_7(counts, distance, rest, table) {
        Some(mov_action) => {
            proof {
                lemma_safe_is_chance(distance as int, rest@, hands@, *table, mov_action);
            }
            match safe_possibility(distance, rest, hands, table, mov_action) {
                Some(safety) => {
                    proof {
                        lemma_le_respects_eqv(
                            threshold@,
                            safety@,
                            three_quarters(),
                            spec_safe_possibility(
                                distance as int,
                                rest@,
                                hands@,
                                *table,
                                mov_action,
                            ).unwrap(),
                        );
                    }
                    if safety.ge(&threshold) {
                        Some(mov_action)
                    } else {
                        None
                    }
                },
                None => None,
            }
        },
        None => None,
    }
}

/// A chance of zero is below three quarters.
proof fn lemma_zero_below_three_quarters(chance: Rational)
    requires
        chance.num == 0,
        chance.den >= 1,
    ensures
        !three_quarters().le(chance),
{
}

/// What the action for the middle of a round can be.
///
/// An attack is chosen at a distance of one to five only, with the rank of
/// that distance and at least one card. A move is chosen only forward, to a
/// distance of seven or two, with a card that is held and may be spent.
pub proof fn lemma_middle_move_gated(
    hand: Seq<CardID>,
    distance: int,
    rest: Seq<nat>,
    table: ProbabilityTable,
)
    requires
        table.wf(),
    ensures
        spec_middle_move(hand, distance, rest, table) matches Some(Action::Attack(attack)) ==> {
            &&& 1 <= distance <= 5
            &&& attack.card.rank() == distance
            &&& count_in(hand, attack.card) >= 1
        },
        spec_middle_move(hand, distance, rest, table) matches Some(Action::Move(movement)) ==> {
            &&& movement.direction == Direction::Forward
            &&& (distance - movement.card.rank() == 7 || distance - movement.card.rank() == 2)
            &&& count_in(hand, movement.card) >= 1
            &&& spec_can_use(counts_of(hand), rest, distance)[movement.card.rank() - 1]
        },
{
    let counts = counts_of(hand);
    let can_use = spec_can_use(counts, rest, distance);
    match spec_middle_move(hand, distance, rest, table) {
        Some(Action::Attack(attack)) => {
            // A move to a comfortable distance is no attack, so this is the
            // attack at the distance, and its chance to win is not zero.
            assert(Action::Attack(attack) == full_attack(counts, distance));
            assert(1 <= distance <= 5);
            let card = attack.card;
            assert(card == rank_at(distance - 1) && card.rank() == distance);
            if count_in(hand, card) == 0 {
                let chance = spec_win_poss_attack(
                    rest,
                    hand,
                    table,
                    Action::Attack(attack),
                ).unwrap();
                lemma_hyper_total(table.target(card), table.total());
                lemma_zero_below_three_quarters(chance);
            }
        },
        Some(Action::Move(movement)) => {
            // An attack that is chosen is no move, so this is the move to a
            // comfortable distance, which is taken forward with a card that
            // is held and may be spent.
            let place = movement.card.rank() - 1;
            let step = Some(Action::Move(movement));
            assert(spec_should_go_2_7(counts, distance, rest) == step);
            assert(step_to(7, counts, distance, can_use) == step || step_to(
                2,
                counts,
                distance,
                can_use,
            ) == step);
            assert(movement.card == rank_at(place));
            assert(counts[place] == count_in(hand, movement.card));
        },
        None => {},
    }
}

} // verus!
