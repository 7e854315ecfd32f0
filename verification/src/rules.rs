//! What a player may do on the board, and the choices that go by rule
//! rather than by chance.

use vstd::prelude::*;
use crate::action::{Action, Attack, Direction, Movement};
use crate::algorithm::ProbabilityTable;
use crate::algorithm2::{
    initial_move,
    middle_move,
    spec_can_use,
    spec_initial_move,
    spec_middle_move,
    AcceptableNumbers,
};
use crate::cards::{CardID, Maisuu};
use crate::hand::{card_map_from_hands, count_cards, count_in, counts_of, rank_at};
use crate::rest::RestCards;

verus! {

/// The last position of the board; the first is position 1.
pub const BOARD_END: u8 = 23;

/// Which of the two players: player zero starts on the low end of the board
/// and moves forward by going up, player one the other way round.
#[derive(Debug, Clone, Copy, PartialEq, Eq, Hash, Structural)]
pub enum PlayerID {
    Zero,
    One,
}

impl PlayerID {
    /// The number of the player, 0 or 1.
    pub open spec fn number(self) -> int {
        match self {
            PlayerID::Zero => 0,
            PlayerID::One => 1,
        }
    }

    /// The number of the player as a `u8`.
    pub fn denote(&self) -> (n: u8)
        ensures
            n == self.number(),
    {
        match self {
            PlayerID::Zero => 0,
            PlayerID::One => 1,
        }
    }

    /// The player with the number `id`; only 0 and 1 are players.
    pub fn from_u8(id: u8) -> (player: Option<PlayerID>)
        ensures
            player == (if id == 0 {
                Some(PlayerID::Zero)
            } else if id == 1 {
                Some(PlayerID::One)
            } else {
                None
            }),
    {
        match id {
            0 => Some(PlayerID::Zero),
            1 => Some(PlayerID::One),
            _ => None,
        }
    }
}

/// Whether the player may step back by the rank of `card`: the step must
/// stay on the board.
pub open spec fn can_go_back(id: PlayerID, card: CardID, pos0: int, pos1: int) -> bool {
    match id {
        PlayerID::Zero => pos0 - card.rank() >= 1,
        PlayerID::One => pos1 + card.rank() <= BOARD_END,
    }
}

/// Whether the player may step forward by the rank of `card`: the step must
/// stop short of the opponent.
pub open spec fn can_go_forward(id: PlayerID, card: CardID, pos0: int, pos1: int) -> bool {
    match id {
        PlayerID::Zero => pos0 + card.rank() < pos1,
        PlayerID::One => pos1 - card.rank() > pos0,
    }
}

/// The moves with `card` that are allowed, back before forward.
pub open spec fn spec_decide_moves(for_back: bool, for_forward: bool, card: CardID) -> Seq<Action> {
    let back = Action::Move(Movement { card, direction: Direction::Back });
    let forward = Action::Move(Movement { card, direction: Direction::Forward });
    if for_back && for_forward {
        seq![back, forward]
    } else if for_back {
        seq![back]
    } else if for_forward {
        seq![forward]
    } else {
        Seq::empty()
    }
}

/// The attack with every copy of `card` in the hand, if the hand holds one
/// to five copies.
pub open spec fn spec_attack_cards(hand: Seq<CardID>, card: CardID) -> Option<Action> {
    if 1 <= count_in(hand, card) <= 5 {
        Some(Action::Attack(Attack { card, quantity: Maisuu::of_nat(count_in(hand, card)) }))
    } else {
        None
    }
}

/// The allowed moves with the cards of the first `n` ranks that the hand
/// holds, lowest rank first.
pub open spec fn moves_upto(id: PlayerID, hand: Seq<CardID>, pos0: int, pos1: int, n: nat) -> Seq<
    Action,
>
    decreases n,
{
    if n == 0 {
        Seq::empty()
    } else {
        let card = rank_at(n - 1);
        moves_upto(id, hand, pos0, pos1, (n - 1) as nat) + if count_in(hand, card) > 0 {
            spec_decide_moves(
                can_go_back(id, card, pos0, pos1),
                can_go_forward(id, card, pos0, pos1),
                card,
            )
        } else {
            Seq::empty()
        }
    }
}

/// The attack that the positions allow: with the card whose rank is the
/// distance between the players, if the hand holds it.
pub open spec fn attack_at(hand: Seq<CardID>, pos0: int, pos1: int) -> Option<Action> {
    match CardID::of_rank(pos1 - pos0) {
        Some(card) => spec_attack_cards(hand, card),
        None => None,
    }
}

/// Everything the player may do: the allowed moves by rank, then the attack
/// if there is one.
pub open spec fn spec_actions(id: PlayerID, hand: Seq<CardID>, pos0: int, pos1: int) -> Seq<
    Action,
> {
    moves_upto(id, hand, pos0, pos1, 5) + match attack_at(hand, pos0, pos1) {
        Some(attack) => seq![attack],
        None => Seq::empty(),
    }
}

/// The attack with every copy of `card` in the hand, if the hand holds one
/// to five copies.
pub fn attack_cards(hands: &[CardID], card: CardID) -> (attack: Option<Action>)
    ensures
        attack == spec_attack_cards(hands@, card),
{
    let have = count_cards(hands, card);
    match Maisuu::from_usize(have) {
        Some(quantity) => {
            if have > 0 {
                Some(Action::Attack(Attack::new(card, quantity)))
            } else {
                None
            }
        },
        None => None,
    }
}

/// The moves with `card` that are allowed, back before forward.
pub fn decide_moves(for_back: bool, for_forward: bool, card: CardID) -> (moves: Vec<Action>)
    ensures
        moves@ == spec_decide_moves(for_back, for_forward, card),
{
    let mut moves: Vec<Action> = Vec::new();
    if for_back {
        moves.push(Action::Move(Movement::new(card, Direction::Back)));
    }
    if for_forward {
        moves.push(Action::Move(Movement::new(card, Direction::Forward)));
    }
    moves
}

/// Everything the player `id` may do with `hands` while player zero stands
/// on `p0_position` and player one on `p1_position`.
pub fn actions(id: PlayerID, hands: &[CardID], p0_position: u8, p1_position: u8) -> (all: Vec<
    Action,
>)
    ensures
        all@ == spec_actions(id, hands@, p0_position as int, p1_position as int),
{
    let ghost pos0 = p0_position as int;
    let ghost pos1 = p1_position as int;
    let mut all: Vec<Action> = Vec::new();
    let mut i: usize = 0;
    while i < 5
        invariant
            i <= 5,
            pos0 == p0_position,
            pos1 == p1_position,
            all@ == moves_upto(id, hands@, pos0, pos1, i as nat),
        decreases 5 - i,
    {
        let card = match CardID::from_usize(i + 1) {
            Some(card) => card,
            None => CardID::One,
        };
        let rank = card.denote() as u16;
        if count_cards(hands, card) > 0 {
            let (for_back, for_forward) = match id {
                PlayerID::Zero => (
                    p0_position as u16 >= rank + 1,
                    p0_position as u16 + rank < p1_position as u16,
                ),
                PlayerID::One => (
                    p1_position as u16 + rank <= BOARD_END as u16,
                    p1_position as u16 > p0_position as u16 + rank,
                ),
            };
            let mut moves = decide_moves(for_back, for_forward, card);
            all.append(&mut moves);
        }
        i = i + 1;
    }
    if p1_position >= p0_position {
        match CardID::from_u8(p1_position - p0_position) {
            Some(card) => match attack_cards(hands, card) {
                Some(attack) => {
                    all.push(attack);
                },
                None => {},
            },
            None => {},
        }
    }
    all
}

/// How soon an action is taken when nothing better is known: an attack
/// first, then the longest move forward, then the shortest move back.
pub open spec fn priority(action: Action) -> int {
    match action {
        Action::Attack(_) => 0,
        Action::Move(m) => match m.direction {
            Direction::Forward => 6 - m.card.rank(),
            Direction::Back => 5 + m.card.rank(),
        },
    }
}

/// The place in `actions` of the first action that none in the first `n`
/// places comes before.
pub open spec fn foremost(actions: Seq<Action>, n: nat) -> int
    decreases n,
{
    if n <= 1 {
        0
    } else {
        let best = foremost(actions, (n - 1) as nat);
        if priority(actions[n - 1]) < priority(actions[best]) {
            n - 1
        } else {
            best
        }
    }
}

/// The action taken when nothing better is known: the first of the actions
/// that no other comes before.
pub open spec fn spec_most_aggressive(actions: Seq<Action>) -> Option<Action> {
    if actions.len() == 0 {
        None
    } else {
        Some(actions[foremost(actions, actions.len())])
    }
}

/// How soon an action is taken when nothing better is known.
fn priority_of(action: &Action) -> (p: u8)
    ensures
        p == priority(*action),
{
    match action {
        Action::Attack(_) => 0,
        Action::Move(movement) => match movement.direction {
            Direction::Forward => 6 - movement.card.denote(),
            Direction::Back => 5 + movement.card.denote(),
        },
    }
}

/// The action taken when nothing better is known: see
/// `spec_most_aggressive`.
pub fn most_aggressive(actions: &[Action]) -> (choice: Option<Action>)
    ensures
        choice == spec_most_aggressive(actions@),
{
    if actions.len() == 0 {
        return None;
    }
    let mut best: usize = 0;
    let mut i: usize = 1;
    while i < actions.len()
        invariant
            1 <= i <= actions@.len(),
            best == foremost(actions@, i as nat),
            best < i,
        decreases actions@.len() - i,
    {
        if priority_of(&actions[i]) < priority_of(&actions[best]) {
            best = i;
        }
        i = i + 1;
    }
    Some(actions[best])
}

/// The first of the actions comes before no other in the list that comes
/// before it, and no action of the list comes before it.
pub proof fn lemma_foremost(actions: Seq<Action>, n: nat)
    requires
        1 <= n <= actions.len(),
    ensures
        0 <= foremost(actions, n) < n,
        forall|j: int|
            0 <= j < n ==> priority(actions[foremost(actions, n)]) <= priority(
                #[trigger] actions[j],
            ),
        forall|j: int|
            0 <= j < foremost(actions, n) ==> priority(actions[foremost(actions, n)]) < priority(
                #[trigger] actions[j],
            ),
    decreases n,
{
    if n > 1 {
        lemma_foremost(actions, (n - 1) as nat);
    }
}

/// How far an allowed action is from the action that was wanted.
///
/// Next to a wanted move, a move the same way is the nearer the less its
/// rank differs; then comes an attack; then come the moves the other way,
/// again by how much the rank differs. Next to a wanted attack, an action is
/// the nearer the lower its rank.
pub open spec fn nearness(wanted: Action, action: Action) -> int {
    match wanted {
        Action::Move(key) => match action {
            Action::Move(m) => {
                let apart = if m.card.rank() >= key.card.rank() {
                    m.card.rank() - key.card.rank()
                } else {
                    key.card.rank() - m.card.rank()
                };
                if m.direction == key.direction {
                    apart
                } else {
                    10 + apart
                }
            },
            Action::Attack(_) => 5,
        },
        Action::Attack(_) => match action {
            Action::Move(m) => m.card.rank(),
            Action::Attack(a) => a.card.rank(),
        },
    }
}

/// The place in `actions` of the first action that none in the first `n`
/// places is nearer to `wanted` than.
pub open spec fn nearest(wanted: Action, actions: Seq<Action>, n: nat) -> int
    decreases n,
{
    if n <= 1 {
        0
    } else {
        let best = nearest(wanted, actions, (n - 1) as nat);
        if nearness(wanted, actions[n - 1]) < nearness(wanted, actions[best]) {
            n - 1
        } else {
            best
        }
    }
}

/// The allowed action to take in place of a wanted one: the wanted action
/// itself where it is allowed, else the first of the allowed actions that
/// no other is nearer to it than.
pub open spec fn spec_nearest_action(wanted: Action, actions: Seq<Action>) -> Option<Action> {
    if actions.len() == 0 {
        None
    } else if actions.contains(wanted) {
        Some(wanted)
    } else {
        Some(actions[nearest(wanted, actions, actions.len())])
    }
}

/// How far an allowed action is from the action that was wanted.
fn nearness_of(wanted: &Action, action: &Action) -> (n: u8)
    ensures
        n == nearness(*wanted, *action),
{
    match wanted {
        Action::Move(key) => match action {
            Action::Move(movement) => {
                let (rank, key_rank) = (movement.card.denote(), key.card.denote());
                let apart = if rank >= key_rank {
                    rank - key_rank
                } else {
                    key_rank - rank
                };
                if movement.direction == key.direction {
                    apart
                } else {
                    10 + apart
                }
            },
            Action::Attack(_) => 5,
        },
        Action::Attack(_) => match action {
            Action::Move(movement) => movement.card.denote(),
            Action::Attack(attack) => attack.card.denote(),
        },
    }
}

/// Whether `wanted` is one of `actions`.
fn is_allowed(wanted: &Action, actions: &[Action]) -> (found: bool)
    ensures
        found == actions@.contains(*wanted),
{
    let mut i: usize = 0;
    while i < actions.len()
        invariant
            i <= actions@.len(),
            forall|k: int| 0 <= k < i ==> actions@[k] != *wanted,
        decreases actions@.len() - i,
    {
        if actions[i] == *wanted {
            return true;
        }
        i = i + 1;
    }
    false
}

/// The allowed action to take in place of a wanted one: see
/// `spec_nearest_action`.
pub fn nearest_action(wanted: Action, actions: &[Action]) -> (choice: Option<Action>)
    ensures
        choice == spec_nearest_action(wanted, actions@),
{
    if actions.len() == 0 {
        return None;
    }
    if is_allowed(&wanted, actions) {
        return Some(wanted);
    }
    let mut best: usize = 0;
    let mut i: usize = 1;
    while i < actions.len()
        invariant
            1 <= i <= actions@.len(),
            best == nearest(wanted, actions@, i as nat),
            best < i,
        decreases actions@.len() - i,
    {
        if nearness_of(&wanted, &actions[i]) < nearness_of(&wanted, &actions[best]) {
            best = i;
        }
        i = i + 1;
    }
    Some(actions[best])
}

/// The action of the rule-following player.
///
/// That is the opening move where the distance calls for one, else the
/// action for the middle of a round if one is good enough, else the action
/// taken when nothing better is known. A hand of more than five cards gets
/// no action.
pub open spec fn spec_act(
    id: PlayerID,
    hand: Seq<CardID>,
    rest: Seq<nat>,
    pos0: int,
    pos1: int,
    table: ProbabilityTable,
) -> Option<Action> {
    let counts = counts_of(hand);
    let distance = pos1 - pos0;
    if hand.len() > 5 {
        None
    } else {
        match spec_initial_move(counts, distance, spec_can_use(counts, rest, distance)) {
            Some(action) => Some(action),
            None => match spec_middle_move(hand, distance, rest, table) {
                Some(action) => Some(action),
                None => spec_most_aggressive(spec_actions(id, hand, pos0, pos1)),
            },
        }
    }
}

/// The action of the rule-following player: see `spec_act`. Player zero
/// never stands beyond player one.
pub fn act(
    id: PlayerID,
    hands: &[CardID],
    rest: RestCards,
    p0_position: u8,
    p1_position: u8,
    table: &ProbabilityTable,
) -> (action: Option<Action>)
    requires
        p0_position <= p1_position,
    ensures
        action == spec_act(
            id,
            hands@,
            rest@,
            p0_position as int,
            p1_position as int,
            *table,
        ),
{
    let card_map = match card_map_from_hands(hands) {
        Some(card_map) => card_map,
        None => {
            return None;
        },
    };
    let distance = p1_position - p0_position;
    let acceptable = AcceptableNumbers::new(card_map, rest, distance);
    match initial_move(&card_map, distance, &acceptable) {
        Ok(action) => Some(action),
        Err(_) => match middle_move(hands, distance, rest, table) {
            Some(action) => Some(action),
            None => {
                let all = actions(id, hands, p0_position, p1_position);
                most_aggressive(all.as_slice())
            },
        },
    }
}

/// The action at place `roll` of the list, counted round and round: the
/// choice of a player who rolls a die.
pub fn pick_action(actions: &[Action], roll: u64) -> (choice: Option<Action>)
    ensures
        actions@.len() == 0 ==> choice.is_none(),
        actions@.len() > 0 ==> choice == Some(actions@[roll as int % actions@.len() as int]),
{
    if actions.len() == 0 {
        None
    } else {
        let place = (roll % (actions.len() as u64)) as usize;
        Some(actions[place])
    }
}

} // verus!
