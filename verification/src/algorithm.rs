//! What the opponent may hold, and how safe or how winning an action is.

use vstd::prelude::*;
use crate::action::{Action, Attack, Direction};
use crate::cards::{spec_monus, CardID, Maisuu};
use crate::combinatorics::{
    comb,
    falling,
    hyper_den,
    hyper_num,
    hyper_sum,
    lemma_comb_five,
    lemma_falling_grows,
    lemma_falling_sign,
    lemma_falling_unfold,
    lemma_hyper_den_bound,
    lemma_hyper_none_unseen,
    lemma_hyper_sum_bounds,
    lemma_hyper_total,
    perm,
};
use crate::fraction::{
    lemma_le_over_same,
    lemma_lowest_terms_unique,
    lemma_over_common_denominator,
    lemma_plus_over_common_denominator,
    lemma_unit_bounds,
    lemma_unit_fractions,
    reduce,
    sum,
    sum_fits_over,
    Fraction,
    Rational,
};
use crate::hand::{
    cards_in,
    count_in,
    hand_of,
    lemma_counts_at,
    lemma_counts_round_trip,
    sum_upto,
};
use crate::rest::{counts_view, RestCards};

pub use crate::hand::{card_map_from_hands, hands_from_card_map};

verus! {

/// Largest number of unseen cards that a table is made for: a deck counted
/// in a `u8`, and the opponent's hand of five.
pub const MAX_UNSEEN: u64 = 260;

/// Number of ways to line up `r` out of `n` things.
pub fn permutation(n: u64, r: u64) -> (p: u64)
    requires
        perm(n as nat, r as nat) <= u64::MAX,
    ensures
        p == perm(n as nat, r as nat),
{
    if n < r {
        0
    } else {
        let mut acc: u64 = 1;
        let mut i: u64 = 0;
        while i < r
            invariant
                i <= r <= n,
                acc == falling(n as int, i as nat),
                falling(n as int, r as nat) <= u64::MAX,
            decreases r - i,
        {
            proof {
                lemma_falling_grows(n as nat, (i + 1) as nat, r as nat);
            }
            acc = acc * (n - i);
            i = i + 1;
        }
        acc
    }
}

/// Number of ways to pick `r` out of `n` things without order.
pub fn combination(n: u64, r: u64) -> (c: u64)
    requires
        perm(n as nat, r as nat) <= u64::MAX,
        perm(r as nat, r as nat) <= u64::MAX,
    ensures
        c == comb(n as nat, r as nat),
{
    proof {
        lemma_falling_sign(r as nat, r as nat);
    }
    permutation(n, r) / permutation(r, r)
}

/// Lining up cards of one rank out of at most five copies gives at most 120
/// arrangements.
proof fn lemma_perm_small(t: nat, k: nat)
    requires
        t <= 5,
        k <= 5,
    ensures
        perm(t, k) <= 120,
{
    if 1 <= k <= t {
        if t == 1 {
            lemma_falling_unfold(1);
        } else if t == 2 {
            lemma_falling_unfold(2);
        } else if t == 3 {
            lemma_falling_unfold(3);
        } else if t == 4 {
            lemma_falling_unfold(4);
        } else {
            lemma_falling_unfold(5);
        }
    }
}

/// The chance that the opponent's five cards hold exactly `k` copies of a
/// rank, as a quotient over the number of ordered hands.
pub open spec fn chance_exactly(target: nat, total: nat, k: nat) -> Rational {
    Rational::of(hyper_num(target, total, k) as int, hyper_den(total) as int)
}

/// For `k` from zero to five, the chance that a hand of five drawn from
/// `total_unvisible_cards` unseen cards, `target_unvisible_cards` of them of
/// one rank, holds exactly `k` of that rank.
fn probability(target_unvisible_cards: Maisuu, total_unvisible_cards: u64) -> (row: [Fraction; 6])
    requires
        5 <= total_unvisible_cards <= MAX_UNSEEN,
    ensures
        forall|k: int|
            0 <= k < 6 ==> (#[trigger] row@[k]).wf() && row@[k]@.eqv(
                chance_exactly(target_unvisible_cards@, total_unvisible_cards as nat, k as nat),
            ),
{
    let target: u64 = target_unvisible_cards.denote() as u64;
    let total: u64 = total_unvisible_cards;
    proof {
        lemma_hyper_den_bound(total as nat, 260);
        lemma_hyper_total(target as nat, total as nat);
    }
    let den = permutation(total, 5);
    let mut row: [Fraction; 6] = [Fraction::zero(); 6];
    let mut r: u64 = 0;
    while r < 6
        invariant
            r <= 6,
            target == target_unvisible_cards@,
            target <= 5,
            total == total_unvisible_cards,
            5 <= total <= MAX_UNSEEN,
            den == hyper_den(total as nat),
            1 <= den <= 260 * 260 * 260 * 260 * 260,
            forall|k: int|
                0 <= k < r ==> (#[trigger] row@[k]).wf() && row@[k]@.eqv(
                    chance_exactly(target as nat, total as nat, k as nat),
                ),
        decreases 6 - r,
    {
        proof {
            lemma_comb_five();
            lemma_perm_small(5, r as nat);
            lemma_perm_small(r as nat, r as nat);
            lemma_perm_small(target as nat, r as nat);
            lemma_hyper_den_bound((total - target) as nat, 260);
            if 5 - r <= total - target {
                lemma_falling_grows(
                    (total - target) as nat,
                    (5 - r) as nat,
                    (total - target) as nat,
                );
                if total - target >= 5 {
                    lemma_falling_grows((total - target) as nat, (5 - r) as nat, 5);
                } else {
                    lemma_perm_small((total - target) as nat, (5 - r) as nat);
                }
            }
        }
        let ways = combination(5, r);
        let ours = permutation(target, r);
        let theirs = permutation(total - target, 5 - r);
        assert(ways * ours <= 1200) by (nonlinear_arith)
            requires
                ways <= 10,
                ours <= 120,
        ;
        assert(ways * ours * theirs <= 1200 * (260 * 260 * 260 * 260 * 260)) by (nonlinear_arith)
            requires
                ways * ours <= 1200,
                theirs <= 260 * 260 * 260 * 260 * 260,
        ;
        let numer = ways * ours * theirs;
        let entry = reduce(numer, den);
        row[r as usize] = entry;
        r = r + 1;
    }
    row
}

/// For each rank and each `k` from zero to five, the chance that the
/// opponent holds exactly `k` copies of that rank.
#[derive(Debug)]
pub struct ProbabilityTable {
    card1: [Fraction; 6],
    card2: [Fraction; 6],
    card3: [Fraction; 6],
    card4: [Fraction; 6],
    card5: [Fraction; 6],
    total: u64,
    rest: RestCards,
}

impl ProbabilityTable {
    /// Number of unseen cards that the table was made for.
    pub closed spec fn total(self) -> nat {
        self.total as nat
    }

    /// Number of unseen copies of `card` that the table was made for.
    pub closed spec fn target(self, card: CardID) -> nat {
        self.rest@[card.rank() - 1]
    }

    /// The fraction that the table holds for `k` copies of `card`.
    pub closed spec fn entry(self, card: CardID, k: int) -> Rational {
        match card {
            CardID::One => self.card1@[k]@,
            CardID::Two => self.card2@[k]@,
            CardID::Three => self.card3@[k]@,
            CardID::Four => self.card4@[k]@,
            CardID::Five => self.card5@[k]@,
        }
    }

    /// The chance that the opponent holds exactly `k` copies of `card`.
    pub open spec fn chance_exactly(self, card: CardID, k: nat) -> Rational {
        chance_exactly(self.target(card), self.total(), k)
    }

    /// The chance that the opponent holds at most `limit` copies of `card`:
    /// the chances of zero to `limit` copies added up.
    pub open spec fn chance_at_most(self, card: CardID, limit: int) -> Rational {
        Rational::of(
            hyper_sum(self.target(card), self.total(), clip(limit + 1, 6)) as int,
            hyper_den(self.total()) as int,
        )
    }

    /// A table is valid when each fraction in it is, in lowest terms, the
    /// chance that it stands for. Every table that executable code can hold
    /// is valid.
    #[verifier::type_invariant]
    pub open spec fn wf(self) -> bool {
        &&& 5 <= self.total() <= MAX_UNSEEN
        &&& forall|card: CardID| #[trigger] self.target(card) <= 5
        &&& forall|card: CardID, k: int|
            0 <= k < 6 ==> {
                &&& (#[trigger] self.entry(card, k)).lowest_terms()
                &&& self.entry(card, k).eqv(self.chance_exactly(card, k as nat))
            }
    }

    /// The table for a deck of `num_of_deck` cards and a tally of unseen
    /// cards: the opponent's five cards count as unseen too.
    pub fn new(num_of_deck: u8, cards: &RestCards) -> (table: ProbabilityTable)
        ensures
            table.wf(),
            table.total() == num_of_deck + 5,
            forall|card: CardID| #[trigger] table.target(card) == cards@[card.rank() - 1],
    {
        proof {
            use_type_invariant(cards);
        }
        let total: u64 = num_of_deck as u64 + 5;
        let table = ProbabilityTable {
            card1: probability(cards.get(0), total),
            card2: probability(cards.get(1), total),
            card3: probability(cards.get(2), total),
            card4: probability(cards.get(3), total),
            card5: probability(cards.get(4), total),
            total,
            rest: *cards,
        };
        table
    }

    /// Number of unseen cards that the table was made for.
    pub fn unseen(&self) -> (total: u64)
        ensures
            total == self.total(),
            5 <= total <= MAX_UNSEEN,
    {
        proof {
            use_type_invariant(self);
        }
        self.total
    }

    /// The chance held for `quantity` copies of `card`, in lowest terms.
    pub fn access(&self, card: CardID, quantity: Maisuu) -> (f: Fraction)
        ensures
            f@ == self.entry(card, quantity@ as int),
            f@.lowest_terms(),
            f@.eqv(self.chance_exactly(card, quantity@)),
    {
        proof {
            use_type_invariant(self);
            use_type_invariant(&quantity);
            assert(self.entry(card, quantity@ as int).lowest_terms());
        }
        let idx: usize = quantity.denote_usize();
        match card {
            CardID::One => self.card1[idx],
            CardID::Two => self.card2[idx],
            CardID::Three => self.card3[idx],
            CardID::Four => self.card4[idx],
            CardID::Five => self.card5[idx],
        }
    }
}

/// `n` kept between zero and `top`.
pub open spec fn clip(n: int, top: nat) -> nat {
    if n < 0 {
        0
    } else if n > top {
        top
    } else {
        n as nat
    }
}

/// The six fractions that a table holds for a rank, added up.
pub open spec fn row_total(table: ProbabilityTable, card: CardID) -> Rational {
    table.entry(card, 0).plus(table.entry(card, 1)).plus(table.entry(card, 2)).plus(
        table.entry(card, 3),
    ).plus(table.entry(card, 4)).plus(table.entry(card, 5))
}

/// The sum of two quotients with positive denominators has one.
proof fn lemma_plus_den(a: Rational, b: Rational)
    requires
        a.den > 0,
        b.den > 0,
    ensures
        a.plus(b).den > 0,
{
    assert(a.den * b.den > 0) by (nonlinear_arith)
        requires
            a.den > 0,
            b.den > 0,
    ;
}

/// The six fractions held for a rank add up to one.
proof fn lemma_row_total(table: ProbabilityTable, card: CardID)
    requires
        table.wf(),
    ensures
        row_total(table, card).eqv(Rational::one()),
{
    let target = table.target(card);
    let total = table.total();
    let den = hyper_den(total) as int;
    lemma_hyper_total(target, total);
    reveal_with_fuel(hyper_sum, 7);
    let e0 = table.entry(card, 0);
    let e1 = table.entry(card, 1);
    let e2 = table.entry(card, 2);
    let e3 = table.entry(card, 3);
    let e4 = table.entry(card, 4);
    let e5 = table.entry(card, 5);
    assert(e0.lowest_terms() && e1.lowest_terms() && e2.lowest_terms() && e3.lowest_terms()
        && e4.lowest_terms() && e5.lowest_terms());
    let n0 = hyper_num(target, total, 0) as int;
    let n1 = hyper_num(target, total, 1) as int;
    let n2 = hyper_num(target, total, 2) as int;
    let n3 = hyper_num(target, total, 3) as int;
    let n4 = hyper_num(target, total, 4) as int;
    let n5 = hyper_num(target, total, 5) as int;
    let s1 = e0.plus(e1);
    lemma_plus_den(e0, e1);
    lemma_plus_over_common_denominator(e0, e1, s1, n0, n1, den);
    let s2 = s1.plus(e2);
    lemma_plus_den(s1, e2);
    lemma_plus_over_common_denominator(s1, e2, s2, n0 + n1, n2, den);
    let s3 = s2.plus(e3);
    lemma_plus_den(s2, e3);
    lemma_plus_over_common_denominator(s2, e3, s3, n0 + n1 + n2, n3, den);
    let s4 = s3.plus(e4);
    lemma_plus_den(s3, e4);
    lemma_plus_over_common_denominator(s3, e4, s4, n0 + n1 + n2 + n3, n4, den);
    let s5 = s4.plus(e5);
    lemma_plus_den(s4, e5);
    lemma_plus_over_common_denominator(s4, e5, s5, n0 + n1 + n2 + n3 + n4, n5, den);
    assert(s5.num == s5.den) by (nonlinear_arith)
        requires
            s5.num * den == den * s5.den,
            den >= 1,
    ;
    assert(s5.num * 1 == 1 * s5.den);
}

/// The six chances held for a rank add up to exactly one: each is its
/// numerator over the common denominator, the numerators add up to that
/// denominator, and so the fractions add up to one.
pub proof fn lemma_distribution_sums_to_one(table: ProbabilityTable, card: CardID)
    requires
        table.wf(),
    ensures
        forall|k: int|
            0 <= k < 6 ==> (#[trigger] table.entry(card, k)).eqv(
                table.chance_exactly(card, k as nat),
            ),
        hyper_sum(table.target(card), table.total(), 6) == hyper_den(table.total()),
        hyper_den(table.total()) >= 1,
        table.chance_at_most(card, 5).eqv(Rational::one()),
        row_total(table, card).eqv(Rational::one()),
{
    lemma_hyper_total(table.target(card), table.total());
    lemma_row_total(table, card);
}

/// With no unseen copy of a rank, the table holds exactly one for zero
/// copies of it and exactly zero for every other number of copies.
pub proof fn lemma_none_unseen(table: ProbabilityTable, card: CardID, k: int)
    requires
        table.wf(),
        table.target(card) == 0,
        0 <= k < 6,
    ensures
        k == 0 ==> table.entry(card, k) == Rational::one(),
        k > 0 ==> table.entry(card, k) == Rational::zero(),
{
    lemma_hyper_none_unseen(table.total(), k as nat);
    lemma_hyper_total(0, table.total());
    lemma_unit_fractions();
    let e = table.entry(card, k);
    let den = hyper_den(table.total()) as int;
    if k == 0 {
        assert(e.eqv(Rational::one())) by (nonlinear_arith)
            requires
                e.num * den == den * e.den,
                den >= 1,
        ;
        lemma_lowest_terms_unique(e, Rational::one());
    } else {
        assert(e.num == 0) by (nonlinear_arith)
            requires
                e.num * den == 0 * e.den,
                den >= 1,
        ;
        lemma_lowest_terms_unique(e, Rational::zero());
    }
}

/// A count above three is as good as three: an attack with three copies
/// cannot be beaten.
pub open spec fn lethal_cap(n: int) -> int {
    if n > 3 {
        3
    } else {
        n
    }
}

/// A fraction that equals `x / big` with `x` at most `big` is at most one.
proof fn lemma_part_at_most_one(f: Rational, x: int, big: int)
    requires
        f.proper(),
        0 <= x <= big,
        big > 0,
        f.eqv(Rational::of(x, big)),
    ensures
        f.le(Rational::one()),
{
    assert(f.num <= f.den) by (nonlinear_arith)
        requires
            f.num * big == x * f.den,
            0 <= x <= big,
            big > 0,
            f.den > 0,
            f.num >= 0,
    ;
    assert(f.num * 1 == f.num && 1 * f.den == f.den);
}

/// The chance that the opponent holds fewer than `bound` copies of `card`,
/// where three copies count as the most: the chances held for zero, one,
/// two and three copies, as far as they are below `bound`, added up.
pub fn chance_below(table: &ProbabilityTable, card: CardID, bound: u8) -> (f: Fraction)
    ensures
        f@.lowest_terms(),
        f@.eqv(table.chance_at_most(card, lethal_cap(bound - 1))),
        f@.le(Rational::one()),
{
    let quantities = [Maisuu::zero(), Maisuu::one(), Maisuu::two(), Maisuu::sokushi()];
    let ghost target = table.target(card);
    let ghost total = table.total();
    let ghost den = hyper_den(total) as int;
    proof {
        use_type_invariant(table);
        lemma_hyper_den_bound(total, 260);
        lemma_hyper_total(target, total);
        lemma_unit_fractions();
    }
    let mut acc = Fraction::zero();
    let mut i: usize = 0;
    while i < 4
        invariant
            i <= 4,
            forall|j: int| 0 <= j < 4 ==> (#[trigger] quantities@[j])@ == j,
            table.wf(),
            target == table.target(card),
            total == table.total(),
            target <= 5 <= total,
            den == hyper_den(total),
            1 <= den <= u64::MAX,
            acc.wf(),
            acc@.eqv(
                Rational::of(hyper_sum(target, total, clip(bound as int, i as nat)) as int, den),
            ),
        decreases 4 - i,
    {
        let enemy_quant = quantities[i];
        if enemy_quant.denote() < bound {
            let term = table.access(card, enemy_quant);
            proof {
                use_type_invariant(&term);
                let so_far = hyper_sum(target, total, i as nat) as int;
                let more = hyper_num(target, total, i as nat) as int;
                lemma_hyper_sum_bounds(target, total, (i + 1) as nat, 6);
                lemma_over_common_denominator(acc@, so_far, den);
                lemma_over_common_denominator(term@, more, den);
                assert(sum_fits_over(acc@, term@, den));
            }
            let next = sum(acc, term);
            proof {
                lemma_plus_over_common_denominator(
                    acc@,
                    term@,
                    next@,
                    hyper_sum(target, total, i as nat) as int,
                    hyper_num(target, total, i as nat) as int,
                    den,
                );
            }
            acc = next;
        }
        i = i + 1;
    }
    proof {
        lemma_hyper_sum_bounds(target, total, clip(bound as int, 4), 6);
        lemma_part_at_most_one(acc@, hyper_sum(target, total, clip(bound as int, 4)) as int, den);
    }
    acc
}

/// Whether a move forward by `i` from `distance` lands at distance `i`, so
/// that the card of the move is the one an attack from there would need.
pub fn check_twice(distance: u8, i: u8) -> (dup: bool)
    ensures
        dup == (distance == 2 * i),
{
    distance as u16 == 2 * (i as u16)
}

/// One where `dup` holds, else zero.
pub open spec fn reserved(dup: bool) -> nat {
    if dup {
        1
    } else {
        0
    }
}

/// The chance that an attack with `card_num`, of which `hands` counts the
/// copies held, can be made safely: the opponent holds no more copies than
/// the hand, three counting as the most.
pub fn calc_possibility_attack(hands: &[Maisuu], table: &ProbabilityTable, card_num: CardID) -> (f:
    Fraction)
    requires
        hands@.len() == 5,
    ensures
        f@.lowest_terms(),
        f@.eqv(table.chance_at_most(card_num, lethal_cap(hands@[card_num.rank() - 1]@ as int))),
        f@.le(Rational::one()),
{
    let have = hands[card_num.denote_usize() - 1];
    chance_below(table, card_num, have.denote() + 1)
}

/// The chance that the opponent cannot beat the hand at the distance of
/// `card_num` after a move: the opponent holds no more copies of it than the
/// hand keeps, one copy less where the move itself spends one.
pub fn calc_possibility_move(
    hands: &[Maisuu],
    table: &ProbabilityTable,
    card_num: CardID,
    dup: bool,
) -> (f: Fraction)
    requires
        hands@.len() == 5,
    ensures
        f@.lowest_terms(),
        f@.eqv(
            table.chance_at_most(
                card_num,
                lethal_cap(spec_monus(hands@[card_num.rank() - 1]@, reserved(dup)) as int),
            ),
        ),
        f@.le(Rational::one()),
{
    let spent = if dup {
        Maisuu::one()
    } else {
        Maisuu::zero()
    };
    let have = hands[card_num.denote_usize() - 1].saturating_sub(spent);
    chance_below(table, card_num, have.denote() + 1)
}

/// The chance that an attack with `card_num` wins outright: the opponent
/// holds fewer copies than the hand, three counting as the most.
pub fn calc_win_possibility(hands: &[Maisuu], table: &ProbabilityTable, card_num: CardID) -> (f:
    Fraction)
    requires
        hands@.len() == 5,
    ensures
        f@.lowest_terms(),
        f@.eqv(table.chance_at_most(card_num, lethal_cap(hands@[card_num.rank() - 1]@ - 1))),
        f@.le(Rational::one()),
{
    let have = hands[card_num.denote_usize() - 1];
    chance_below(table, card_num, have.denote())
}

/// The distance after a move, as an integer.
pub open spec fn landing(distance: int, card: CardID, direction: Direction) -> int {
    match direction {
        Direction::Forward => distance - card.rank(),
        Direction::Back => distance + card.rank(),
    }
}

/// The chance that the opponent cannot punish `action`, taken at `distance`
/// with `hand` while `rest` copies of each rank are unseen.
///
/// An attack is surely safe when the hand holds every unseen copy of its
/// rank; otherwise it is safe when the opponent holds no more copies than
/// the hand. A move is surely safe when the hand holds every unseen copy of
/// the card moved with, not counting the copy that a move forward onto its
/// own distance spends; otherwise it is safe when the opponent cannot beat
/// the hand at the distance moved to. There is no result for a hand of more
/// than five cards, nor where the distance moved to is not that of a card.
pub open spec fn spec_safe_possibility(
    distance: int,
    rest: Seq<nat>,
    hand: Seq<CardID>,
    table: ProbabilityTable,
    action: Action,
) -> Option<Rational> {
    if hand.len() > 5 {
        None
    } else {
        match action {
            Action::Attack(attack) => {
                let have = count_in(hand, attack.card);
                if rest[attack.card.rank() - 1] <= have {
                    Some(Rational::one())
                } else {
                    Some(table.chance_at_most(attack.card, lethal_cap(have as int)))
                }
            },
            Action::Move(movement) => {
                let card = movement.card;
                let dup = movement.direction == Direction::Forward && distance == 2 * card.rank();
                if rest[card.rank() - 1] <= spec_monus(count_in(hand, card), reserved(dup)) {
                    Some(Rational::one())
                } else {
                    match CardID::of_rank(landing(distance, card, movement.direction)) {
                        Some(there) => Some(
                            table.chance_at_most(
                                there,
                                lethal_cap(spec_monus(count_in(hand, there), reserved(dup)) as int),
                            ),
                        ),
                        None => None,
                    }
                }
            },
        }
    }
}

/// The chance that `action` wins outright: zero for a move; for an attack,
/// one when the hand holds more copies of its rank than are unseen, and
/// otherwise the chance that the opponent holds fewer copies than the hand.
/// There is no result for an attack from a hand of more than five cards.
pub open spec fn spec_win_poss_attack(
    rest: Seq<nat>,
    hand: Seq<CardID>,
    table: ProbabilityTable,
    action: Action,
) -> Option<Rational> {
    match action {
        Action::Move(_) => Some(Rational::zero()),
        Action::Attack(attack) => {
            let have = count_in(hand, attack.card);
            if hand.len() > 5 {
                None
            } else if rest[attack.card.rank() - 1] < have {
                Some(Rational::one())
            } else {
                Some(table.chance_at_most(attack.card, lethal_cap(have - 1)))
            }
        },
    }
}

/// The chance that the opponent cannot punish `action`: see
/// `spec_safe_possibility`. The result is in lowest terms.
pub fn safe_possibility(
    distance: u8,
    rest_cards: RestCards,
    hands: &[CardID],
    table: &ProbabilityTable,
    action: Action,
) -> (r: Option<Fraction>)
    ensures
        r.is_some() == spec_safe_possibility(
            distance as int,
            rest_cards@,
            hands@,
            *table,
            action,
        ).is_some(),
        r matches Some(f) ==> {
            &&& f@.lowest_terms()
            &&& f@.eqv(
                spec_safe_possibility(
                    distance as int,
                    rest_cards@,
                    hands@,
                    *table,
                    action,
                ).unwrap(),
            )
            &&& f@.le(Rational::one())
        },
        spec_safe_possibility(distance as int, rest_cards@, hands@, *table, action) == Some(
            Rational::one(),
        ) ==> (r matches Some(f) && f@ == Rational::one()),
{
    let counts = match card_map_from_hands(hands) {
        Some(counts) => counts,
        None => {
            return None;
        },
    };
    proof {
        lemma_unit_fractions();
    }
    let r = match action {
        Action::Attack(attack) => {
            let card = attack.card();
            let have = counts[card.denote_usize() - 1];
            proof {
                lemma_counts_at(hands@, counts@, card);
            }
            if rest_cards.of(card).denote() <= have.denote() {
                Some(Fraction::one())
            } else {
                Some(calc_possibility_attack(&counts, table, card))
            }
        },
        Action::Move(movement) => {
            let card = movement.card();
            let have = counts[card.denote_usize() - 1];
            proof {
                lemma_counts_at(hands@, counts@, card);
            }
            match movement.direction() {
                Direction::Forward => {
                    let dup = check_twice(distance, card.denote());
                    let spent = if dup {
                        Maisuu::one()
                    } else {
                        Maisuu::zero()
                    };
                    if rest_cards.of(card).denote() <= have.saturating_sub(spent).denote() {
                        Some(Fraction::one())
                    } else if distance > card.denote() {
                        match CardID::from_u8(distance - card.denote()) {
                            Some(there) => {
                                proof {
                                    lemma_counts_at(hands@, counts@, there);
                                }
                                Some(calc_possibility_move(&counts, table, there, dup))
                            },
                            None => None,
                        }
                    } else {
                        None
                    }
                },
                Direction::Back => {
                    if rest_cards.of(card).denote() <= have.denote() {
                        Some(Fraction::one())
                    } else if distance <= 4 {
                        match CardID::from_u8(distance + card.denote()) {
                            Some(there) => {
                                proof {
                                    lemma_counts_at(hands@, counts@, there);
                                }
                                Some(calc_possibility_move(&counts, table, there, false))
                            },
                            None => None,
                        }
                    } else {
                        None
                    }
                },
            }
        },
    };
    proof {
        let want = spec_safe_possibility(distance as int, rest_cards@, hands@, *table, action);
        if want == Some(Rational::one()) {
            lemma_lowest_terms_unique(r.unwrap()@, Rational::one());
        }
    }
    r
}

/// The chance that `action` wins outright: see `spec_win_poss_attack`. The
/// result is in lowest terms.
pub fn win_poss_attack(
    rest_cards: RestCards,
    hands: &[CardID],
    table: &ProbabilityTable,
    action: Action,
) -> (r: Option<Fraction>)
    ensures
        r.is_some() == spec_win_poss_attack(rest_cards@, hands@, *table, action).is_some(),
        r matches Some(f) ==> {
            &&& f@.lowest_terms()
            &&& f@.eqv(spec_win_poss_attack(rest_cards@, hands@, *table, action).unwrap())
            &&& f@.le(Rational::one())
        },
        spec_win_poss_attack(rest_cards@, hands@, *table, action) == Some(Rational::one())
            ==> (r matches Some(f) && f@ == Rational::one()),
        spec_win_poss_attack(rest_cards@, hands@, *table, action) == Some(Rational::zero())
            ==> (r matches Some(f) && f@ == Rational::zero()),
{
    proof {
        lemma_unit_fractions();
    }
    let r = match action {
        Action::Attack(attack) => {
            let card = attack.card();
            let counts = match card_map_from_hands(hands) {
                Some(counts) => counts,
                None => {
                    return None;
                },
            };
            let have = counts[card.denote_usize() - 1];
            proof {
                lemma_counts_at(hands@, counts@, card);
            }
            if rest_cards.of(card).denote() < have.denote() {
                Some(Fraction::one())
            } else {
                Some(calc_win_possibility(&counts, table, card))
            }
        },
        Action::Move(_) => Some(Fraction::zero()),
    };
    proof {
        let want = spec_win_poss_attack(rest_cards@, hands@, *table, action);
        if want == Some(Rational::one()) {
            lemma_lowest_terms_unique(r.unwrap()@, Rational::one());
        }
        if want == Some(Rational::zero()) {
            lemma_lowest_terms_unique(r.unwrap()@, Rational::zero());
        }
    }
    r
}

/// The chance that the opponent holds at most some number of copies is a
/// proper quotient between zero and one, and grows with that number.
pub proof fn lemma_chance_at_most(table: ProbabilityTable, card: CardID, low: int, high: int)
    requires
        table.wf(),
        low <= high,
    ensures
        table.chance_at_most(card, low).proper(),
        table.chance_at_most(card, high).proper(),
        table.chance_at_most(card, low).le(table.chance_at_most(card, high)),
        table.chance_at_most(card, high).le(Rational::one()),
        Rational::zero().le(table.chance_at_most(card, low)),
{
    let target = table.target(card);
    let total = table.total();
    assert(target <= 5 && 5 <= total);
    lemma_hyper_total(target, total);
    let few = clip(low + 1, 6);
    let many = clip(high + 1, 6);
    assert(few <= many <= 6);
    lemma_hyper_sum_bounds(target, total, few, many);
    let a = hyper_sum(target, total, few) as int;
    let b = hyper_sum(target, total, many) as int;
    let den = hyper_den(total) as int;
    assert(0 <= a <= b <= den && den >= 1);
    let p = table.chance_at_most(card, low);
    let q = table.chance_at_most(card, high);
    assert(p == Rational::of(a, den) && q == Rational::of(b, den));
    assert(p.num == a && p.den == den && q.num == b && q.den == den);
    lemma_le_over_same(a, b, den);
    lemma_unit_bounds(p);
    lemma_unit_bounds(q);
}

/// Safety is a chance: whenever there is a result, it lies between zero and
/// one.
pub proof fn lemma_safe_is_chance(
    distance: int,
    rest: Seq<nat>,
    hand: Seq<CardID>,
    table: ProbabilityTable,
    action: Action,
)
    requires
        table.wf(),
    ensures
        spec_safe_possibility(distance, rest, hand, table, action) matches Some(p) ==> p.proper()
            && Rational::zero().le(p) && p.le(Rational::one()),
{
    lemma_unit_bounds(Rational::one());
    match spec_safe_possibility(distance, rest, hand, table, action) {
        Some(p) => {
            match action {
                Action::Attack(attack) => {
                    let have = count_in(hand, attack.card);
                    let cap = lethal_cap(have as int);
                    lemma_chance_at_most(table, attack.card, cap, cap);
                    assert(p == Rational::one() || p == table.chance_at_most(attack.card, cap));
                },
                Action::Move(movement) => {
                    let card = movement.card;
                    let dup = movement.direction == Direction::Forward && distance == 2
                        * card.rank();
                    if rest[card.rank() - 1] <= spec_monus(count_in(hand, card), reserved(dup)) {
                        assert(p == Rational::one());
                    } else {
                        let there = CardID::of_rank(
                            landing(distance, card, movement.direction),
                        ).unwrap();
                        let cap = lethal_cap(
                            spec_monus(count_in(hand, there), reserved(dup)) as int,
                        );
                        lemma_chance_at_most(table, there, cap, cap);
                        assert(p == table.chance_at_most(there, cap));
                    }
                },
            }
            assert(p.proper() && Rational::zero().le(p) && p.le(Rational::one()));
        },
        None => {},
    }
}

/// Winning is a chance: whenever there is a result, it lies between zero
/// and one.
pub proof fn lemma_win_is_chance(
    rest: Seq<nat>,
    hand: Seq<CardID>,
    table: ProbabilityTable,
    action: Action,
)
    requires
        table.wf(),
    ensures
        spec_win_poss_attack(rest, hand, table, action) matches Some(p) ==> p.proper()
            && Rational::zero().le(p) && p.le(Rational::one()),
{
    lemma_unit_bounds(Rational::one());
    lemma_unit_bounds(Rational::zero());
    match spec_win_poss_attack(rest, hand, table, action) {
        Some(p) => {
            match action {
                Action::Attack(attack) => {
                    let cap = lethal_cap(count_in(hand, attack.card) - 1);
                    lemma_chance_at_most(table, attack.card, cap, cap);
                    assert(p == Rational::one() || p == table.chance_at_most(attack.card, cap));
                },
                Action::Move(_) => {
                    assert(p == Rational::zero());
                },
            }
            assert(p.proper() && Rational::zero().le(p) && p.le(Rational::one()));
        },
        None => {},
    }
}

/// An attack is never more likely to win than to be safe.
pub proof fn lemma_win_at_most_safe(
    distance: int,
    rest: Seq<nat>,
    hand: Seq<CardID>,
    table: ProbabilityTable,
    attack: Attack,
)
    requires
        table.wf(),
        hand.len() <= 5,
    ensures
        spec_win_poss_attack(rest, hand, table, Action::Attack(attack)).is_some(),
        spec_safe_possibility(distance, rest, hand, table, Action::Attack(attack)).is_some(),
        spec_win_poss_attack(rest, hand, table, Action::Attack(attack)).unwrap().le(
            spec_safe_possibility(distance, rest, hand, table, Action::Attack(attack)).unwrap(),
        ),
{
    let action = Action::Attack(attack);
    let have = count_in(hand, attack.card);
    let unseen = rest[attack.card.rank() - 1];
    let beaten = table.chance_at_most(attack.card, lethal_cap(have - 1));
    let matched = table.chance_at_most(attack.card, lethal_cap(have as int));
    let win = spec_win_poss_attack(rest, hand, table, action);
    let safe = spec_safe_possibility(distance, rest, hand, table, action);
    assert(lethal_cap(have - 1) <= lethal_cap(have as int));
    lemma_chance_at_most(table, attack.card, lethal_cap(have - 1), lethal_cap(have as int));
    lemma_unit_bounds(Rational::one());
    if unseen < have {
        // The hand holds more copies than are unseen: both chances are one.
        assert(win == Some(Rational::one()));
        assert(safe == Some(Rational::one()));
    } else if unseen <= have {
        // The hand holds exactly the unseen copies: safe for sure, and the
        // chance to win is a chance.
        assert(win == Some(beaten));
        assert(safe == Some(Rational::one()));
        lemma_chance_at_most(table, attack.card, lethal_cap(have - 1), lethal_cap(have - 1));
    } else {
        // The opponent may hold more: fewer copies are beaten than matched.
        assert(win == Some(beaten));
        assert(safe == Some(matched));
    }
    assert(win.unwrap().le(safe.unwrap()));
}

/// Whether the next action is the last of the round: at most one card more
/// than the opponent has parried is still unseen.
pub fn check_last(parried_quant: u8, restcards: RestCards) -> (last: bool)
    ensures
        last == (cards_in(restcards@) <= 1 + parried_quant),
{
    proof {
        reveal_with_fuel(sum_upto, 6);
    }
    restcards.total() as u16 <= 1 + parried_quant as u16
}

/// The attack with every copy of the rank that matches `distance`, where
/// `counts` says how many copies of each rank are held.
pub open spec fn full_attack(counts: Seq<nat>, distance: int) -> Action {
    Action::Attack(
        Attack {
            card: CardID::of_rank(distance).unwrap(),
            quantity: Maisuu::of_nat(counts[distance - 1]),
        },
    )
}

/// The distance at which the round can be won by force, if there is one.
///
/// That is the distance between the two positions, where the next action is
/// the last of the round, the distance is that of a card, the hand holds
/// that card, and attacking with it wins with a chance of exactly one.
pub open spec fn spec_last_move(
    rest: Seq<nat>,
    counts: Seq<nat>,
    position: (int, int),
    parried: int,
    table: ProbabilityTable,
) -> Option<int> {
    let distance = position.0 - position.1;
    if cards_in(rest) <= 1 + parried && 1 <= distance <= 5 && cards_in(counts) <= 5
        && counts[distance - 1] > 0 && spec_win_poss_attack(
        rest,
        hand_of(counts),
        table,
        full_attack(counts, distance),
    ).unwrap().eqv(Rational::one()) {
        Some(distance)
    } else {
        None
    }
}

/// Two quotients with positive denominators that are the same number are
/// both one or neither.
proof fn lemma_same_as_one(p: Rational, q: Rational)
    requires
        p.den > 0,
        q.den > 0,
        p.eqv(q),
    ensures
        p.eqv(Rational::one()) <==> q.eqv(Rational::one()),
{
    lemma_unit_bounds(p);
    lemma_unit_bounds(q);
    assert(p.num * q.den == q.num * p.den);
    if p.num == p.den {
        assert(q.num == q.den) by (nonlinear_arith)
            requires
                p.num * q.den == q.num * p.den,
                p.num == p.den,
                p.den > 0,
        ;
    }
    if q.num == q.den {
        assert(p.num == p.den) by (nonlinear_arith)
            requires
                p.num * q.den == q.num * p.den,
                q.num == q.den,
                q.den > 0,
        ;
    }
}

/// The distance at which the round can be won by force, if there is one:
/// see `spec_last_move`. `position` holds the far position and the near one;
/// `hands` holds the count held of each of the five ranks.
pub fn last_move(
    restcards: RestCards,
    hands: &[Maisuu],
    position: (i64, i64),
    parried_quant: u8,
    table: &ProbabilityTable,
) -> (r: Option<u64>)
    requires
        hands@.len() == 5,
    ensures
        match spec_last_move(
            restcards@,
            counts_view(hands@),
            (position.0 as int, position.1 as int),
            parried_quant as int,
            *table,
        ) {
            Some(distance) => r == Some(distance as u64),
            None => r.is_none(),
        },
{
    let distance: i128 = position.0 as i128 - position.1 as i128;
    if !check_last(parried_quant, restcards) || distance < 1 || distance > 5 {
        return None;
    }
    let place: usize = (distance - 1) as usize;
    let have = hands[place];
    let card = match CardID::from_u8(distance as u8) {
        Some(card) => card,
        None => {
            return None;
        },
    };
    if have.denote() == 0 {
        return None;
    }
    let hand = match hands_from_card_map(hands) {
        Some(hand) => hand,
        None => {
            return None;
        },
    };
    let attack_action = Action::Attack(Attack::new(card, have));
    proof {
        use_type_invariant(table);
        use_type_invariant(&have);
        crate::cards::lemma_count_of_view(have);
        lemma_win_is_chance(restcards@, hand@, *table, attack_action);
    }
    match win_poss_attack(restcards, hand.as_slice(), table, attack_action) {
        Some(possibility) => {
            proof {
                lemma_same_as_one(
                    possibility@,
                    spec_win_poss_attack(restcards@, hand@, *table, attack_action).unwrap(),
                );
            }
            if possibility.is_one() {
                Some(distance as u64)
            } else {
                None
            }
        },
        None => {
            proof {
                lemma_counts_round_trip(counts_view(hands@));
            }
            None
        },
    }
}

/// The value marked last in the first `n` places of `hands`, where a value
/// is marked when the place that it names holds something; zero where none
/// is marked.
pub open spec fn last_marked(hands: Seq<u64>, n: nat) -> int
    decreases n,
{
    if n == 0 {
        0
    } else if hands[hands[n - 1] as int] != 0 {
        hands[n - 1] as int
    } else {
        last_marked(hands, (n - 1) as nat)
    }
}

/// The opening card for a distance of at least 11, read off a row whose
/// values name places in the same row: one more than the value marked last.
/// Below that distance there is no opening card.
pub fn initial_move(distance: u64, hands: &[u64]) -> (card: Option<u64>)
    requires
        forall|i: int| 0 <= i < hands@.len() ==> hands@[i] < hands@.len(),
    ensures
        distance < 11 ==> card.is_none(),
        distance >= 11 ==> card == Some((last_marked(hands@, hands@.len()) + 1) as u64),
{
    if distance < 11 {
        None
    } else {
        let mut max: u64 = 0;
        let mut k: usize = 0;
        while k < hands.len()
            invariant
                k <= hands@.len(),
                forall|i: int| 0 <= i < hands@.len() ==> hands@[i] < hands@.len(),
                max == last_marked(hands@, k as nat),
                max == 0 || max < hands@.len(),
            decreases hands@.len() - k,
        {
            let i = hands[k];
            if hands[i as usize] != 0 {
                max = i;
            }
            k = k + 1;
        }
        Some(max + 1)
    }
}

/// An attack is safe with a chance of exactly one when the hand holds every
/// unseen copy of its rank, and wins with a chance of exactly one when it
/// holds more than are unseen.
pub proof fn lemma_sure_attack(
    distance: int,
    rest: Seq<nat>,
    hand: Seq<CardID>,
    table: ProbabilityTable,
    attack: Attack,
)
    requires
        hand.len() <= 5,
    ensures
        rest[attack.card.rank() - 1] <= count_in(hand, attack.card) ==> spec_safe_possibility(
            distance,
            rest,
            hand,
            table,
            Action::Attack(attack),
        ) == Some(Rational::one()),
        rest[attack.card.rank() - 1] < count_in(hand, attack.card) ==> spec_win_poss_attack(
            rest,
            hand,
            table,
            Action::Attack(attack),
        ) == Some(Rational::one()),
{
}

/// A distance is named as a forced win only where the next action is the
/// last of the round and the attack at that distance wins with a chance of
/// exactly one; it is then the distance between the two positions.
pub proof fn lemma_last_move_forced(
    rest: Seq<nat>,
    counts: Seq<nat>,
    position: (int, int),
    parried: int,
    table: ProbabilityTable,
)
    ensures
        spec_last_move(rest, counts, position, parried, table) matches Some(distance) ==> {
            &&& distance == position.0 - position.1
            &&& cards_in(rest) <= 1 + parried
            &&& spec_win_poss_attack(
                rest,
                hand_of(counts),
                table,
                full_attack(counts, distance),
            ) matches Some(chance) && chance.eqv(Rational::one())
        },
{
    if spec_last_move(rest, counts, position, parried, table).is_some() {
        lemma_counts_round_trip_len(counts);
    }
}

/// The hand that counts of at most five cards stand for has at most five
/// cards.
proof fn lemma_counts_round_trip_len(counts: Seq<nat>)
    requires
        cards_in(counts) <= 5,
    ensures
        hand_of(counts).len() <= 5,
{
    crate::hand::lemma_hand_len(counts, 5);
}

} // verus!
