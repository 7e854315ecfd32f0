//! A hand as a list of cards and as a count for each rank.

use vstd::prelude::*;
use crate::cards::{CardID, Maisuu};
use crate::rest::counts_view;

verus! {

/// How often `card` occurs in `hand`.
pub open spec fn count_in(hand: Seq<CardID>, card: CardID) -> nat
    decreases hand.len(),
{
    if hand.len() == 0 {
        0
    } else {
        count_in(hand.drop_last(), card) + if hand.last() == card {
            1nat
        } else {
            0nat
        }
    }
}

/// The rank that is counted at place `i` of a row of five counts.
pub open spec fn rank_at(i: int) -> CardID {
    CardID::of_rank(i + 1).unwrap()
}

/// For each of the five ranks, how often it occurs in `hand`.
pub open spec fn counts_of(hand: Seq<CardID>) -> Seq<nat> {
    Seq::new(5, |i: int| count_in(hand, rank_at(i)))
}

/// `n` copies of `card`.
pub open spec fn copies(card: CardID, n: nat) -> Seq<CardID> {
    Seq::new(n, |i: int| card)
}

/// The cards of the first `n` ranks that `counts` stands for, lowest rank
/// first.
pub open spec fn hand_upto(counts: Seq<nat>, n: nat) -> Seq<CardID>
    decreases n,
{
    if n == 0 {
        Seq::empty()
    } else {
        hand_upto(counts, (n - 1) as nat) + copies(rank_at(n - 1), counts[n - 1])
    }
}

/// The sorted hand that a row of five counts stands for.
pub open spec fn hand_of(counts: Seq<nat>) -> Seq<CardID> {
    hand_upto(counts, 5)
}

/// The first `n` counts added up.
pub open spec fn sum_upto(counts: Seq<nat>, n: nat) -> nat
    decreases n,
{
    if n == 0 {
        0
    } else {
        sum_upto(counts, (n - 1) as nat) + counts[n - 1]
    }
}

/// Number of cards that a row of five counts stands for.
pub open spec fn cards_in(counts: Seq<nat>) -> nat {
    sum_upto(counts, 5)
}

/// No card is followed by one of lower rank.
pub open spec fn sorted(hand: Seq<CardID>) -> bool {
    forall|i: int, j: int| 0 <= i <= j < hand.len() ==> hand[i].rank() <= hand[j].rank()
}

/// How often `card_id` occurs in `hands`.
pub fn count_cards(hands: &[CardID], card_id: CardID) -> (n: usize)
    ensures
        n == count_in(hands@, card_id),
        n <= hands@.len(),
{
    let mut n: usize = 0;
    let mut i: usize = 0;
    while i < hands.len()
        invariant
            i <= hands@.len(),
            n == count_in(hands@.take(i as int), card_id),
            n <= i,
        decreases hands@.len() - i,
    {
        assert(hands@.take(i + 1).drop_last() =~= hands@.take(i as int));
        if hands[i] == card_id {
            n = n + 1;
        }
        i = i + 1;
    }
    assert(hands@.take(i as int) =~= hands@);
    n
}

/// The count of each rank in a hand. A hand of more than five cards is
/// malformed and has no counts.
pub fn card_map_from_hands(hands: &[CardID]) -> (map: Option<[Maisuu; 5]>)
    ensures
        map.is_some() <==> hands@.len() <= 5,
        map matches Some(m) ==> counts_view(m@) == counts_of(hands@),
{
    if hands.len() > 5 {
        return None;
    }
    let c1 = Maisuu::from_usize(count_cards(hands, CardID::One));
    let c2 = Maisuu::from_usize(count_cards(hands, CardID::Two));
    let c3 = Maisuu::from_usize(count_cards(hands, CardID::Three));
    let c4 = Maisuu::from_usize(count_cards(hands, CardID::Four));
    let c5 = Maisuu::from_usize(count_cards(hands, CardID::Five));
    match (c1, c2, c3, c4, c5) {
        (Some(c1), Some(c2), Some(c3), Some(c4), Some(c5)) => {
            let m = [c1, c2, c3, c4, c5];
            Some(m)
        },
        _ => None,
    }
}

/// Appends `n` copies of `card` to `hands`.
fn push_copies(hands: &mut Vec<CardID>, card: CardID, n: usize)
    ensures
        final(hands)@ == old(hands)@ + copies(card, n as nat),
{
    let ghost before = hands@;
    let mut j: usize = 0;
    while j < n
        invariant
            j <= n,
            hands@ == before + copies(card, j as nat),
        decreases n - j,
    {
        hands.push(card);
        j = j + 1;
    }
}

/// The sorted hand that a row of five counts stands for. Counts of more
/// than five cards in all stand for no hand.
pub fn hands_from_card_map(card_map: &[Maisuu]) -> (hands: Option<Vec<CardID>>)
    requires
        card_map@.len() == 5,
    ensures
        hands.is_some() <==> cards_in(counts_view(card_map@)) <= 5,
        hands matches Some(h) ==> h@ == hand_of(counts_view(card_map@)),
{
    let ghost counts = counts_view(card_map@);
    let mut total: usize = 0;
    let mut i: usize = 0;
    while i < 5
        invariant
            i <= 5,
            card_map@.len() == 5,
            counts == counts_view(card_map@),
            total == sum_upto(counts, i as nat),
            total <= 5 * i,
        decreases 5 - i,
    {
        total = total + card_map[i].denote_usize();
        i = i + 1;
    }
    if total > 5 {
        return None;
    }
    let mut hands: Vec<CardID> = Vec::new();
    let mut i: usize = 0;
    while i < 5
        invariant
            i <= 5,
            card_map@.len() == 5,
            counts == counts_view(card_map@),
            hands@ == hand_upto(counts, i as nat),
        decreases 5 - i,
    {
        let card = match CardID::from_usize(i + 1) {
            Some(card) => card,
            None => CardID::One,
        };
        push_copies(&mut hands, card, card_map[i].denote_usize());
        i = i + 1;
    }
    Some(hands)
}

/// The cards of a hand in order of rank.
pub fn sorted_hand(cards: &[CardID]) -> (hand: Vec<CardID>)
    ensures
        hand@ == hand_of(counts_of(cards@)),
        sorted(hand@),
        counts_of(hand@) == counts_of(cards@),
        hand@.len() == cards@.len(),
{
    let ghost counts = counts_of(cards@);
    let mut hand: Vec<CardID> = Vec::new();
    let mut i: usize = 0;
    while i < 5
        invariant
            i <= 5,
            counts == counts_of(cards@),
            hand@ == hand_upto(counts, i as nat),
        decreases 5 - i,
    {
        let card = match CardID::from_usize(i + 1) {
            Some(card) => card,
            None => CardID::One,
        };
        push_copies(&mut hand, card, count_cards(cards, card));
        i = i + 1;
    }
    proof {
        lemma_counts_round_trip(counts);
        lemma_counts_cover(cards@);
    }
    hand
}

/// The cards that the first `n` numbers name, in their order; a number
/// that names no rank is passed over.
pub open spec fn cards_named(numbers: Seq<u8>, n: nat) -> Seq<CardID>
    decreases n,
{
    if n == 0 {
        Seq::empty()
    } else {
        cards_named(numbers, (n - 1) as nat) + match CardID::of_rank(numbers[n - 1] as int) {
            Some(card) => seq![card],
            None => Seq::empty(),
        }
    }
}

/// The hand that a list of numbers names, in order of rank; a number that
/// names no rank is passed over.
pub fn hand_from_numbers(numbers: &[u8]) -> (hand: Vec<CardID>)
    ensures
        hand@ == hand_of(counts_of(cards_named(numbers@, numbers@.len()))),
        sorted(hand@),
{
    let mut cards: Vec<CardID> = Vec::new();
    let mut i: usize = 0;
    while i < numbers.len()
        invariant
            i <= numbers@.len(),
            cards@ == cards_named(numbers@, i as nat),
        decreases numbers@.len() - i,
    {
        match CardID::from_u8(numbers[i]) {
            Some(card) => {
                cards.push(card);
            },
            None => {
            },
        }
        i = i + 1;
    }
    sorted_hand(cards.as_slice())
}

/// A rank above every card of a hand does not occur in it.
pub proof fn lemma_count_above(hand: Seq<CardID>, card: CardID, top: int)
    requires
        forall|i: int| 0 <= i < hand.len() ==> hand[i].rank() <= top,
        card.rank() > top,
    ensures
        count_in(hand, card) == 0,
    decreases hand.len(),
{
    if hand.len() > 0 {
        lemma_count_above(hand.drop_last(), card, top);
    }
}

/// One more card raises the count of its rank by one and no other.
pub proof fn lemma_counts_push(hand: Seq<CardID>, card: CardID)
    ensures
        counts_of(hand.push(card)) == counts_of(hand).update(
            card.rank() - 1,
            counts_of(hand)[card.rank() - 1] + 1,
        ),
{
    assert(hand.push(card).drop_last() =~= hand);
    assert(counts_of(hand.push(card)) =~= counts_of(hand).update(
        card.rank() - 1,
        counts_of(hand)[card.rank() - 1] + 1,
    ));
}

/// The cards of the first `n` ranks depend on the first `n` counts only.
pub proof fn lemma_hand_upto_same(a: Seq<nat>, b: Seq<nat>, n: nat)
    requires
        forall|i: int| 0 <= i < n ==> a[i] == b[i],
    ensures
        hand_upto(a, n) == hand_upto(b, n),
    decreases n,
{
    if n > 0 {
        lemma_hand_upto_same(a, b, (n - 1) as nat);
    }
}

/// Ranks that are not held add no card.
pub proof fn lemma_hand_upto_none(counts: Seq<nat>, n: nat, m: nat)
    requires
        n <= m,
        forall|i: int| n <= i < m ==> counts[i] == 0,
    ensures
        hand_upto(counts, m) == hand_upto(counts, n),
    decreases m - n,
{
    if n < m {
        lemma_hand_upto_none(counts, n, (m - 1) as nat);
    }
}

/// Counting the cards of a hand by rank leaves none out: the counts add up
/// to the size of the hand.
pub proof fn lemma_counts_cover(hand: Seq<CardID>)
    ensures
        cards_in(counts_of(hand)) == hand.len(),
    decreases hand.len(),
{
    reveal_with_fuel(sum_upto, 6);
    if hand.len() > 0 {
        lemma_counts_cover(hand.drop_last());
    }
}

/// Counting a sorted hand by rank and laying the counts out again gives the
/// hand back, and the counts are of as many cards as the hand has.
pub proof fn lemma_hand_round_trip(hand: Seq<CardID>)
    requires
        sorted(hand),
    ensures
        hand_of(counts_of(hand)) == hand,
        cards_in(counts_of(hand)) == hand.len(),
    decreases hand.len(),
{
    lemma_counts_cover(hand);
    if hand.len() == 0 {
        lemma_hand_upto_none(counts_of(hand), 0, 5);
    } else {
        let rest = hand.drop_last();
        let card = hand.last();
        let r = card.rank();
        assert(rest.push(card) =~= hand);
        assert(sorted(rest));
        lemma_hand_round_trip(rest);
        lemma_counts_push(rest, card);
        let before = counts_of(rest);
        let after = counts_of(hand);
        assert forall|i: int| r <= i < 5 implies before[i] == 0 by {
            assert(forall|k: int| 0 <= k < rest.len() ==> rest[k].rank() <= r);
            lemma_count_above(rest, rank_at(i), r);
        }
        lemma_hand_upto_none(before, r as nat, 5);
        lemma_hand_upto_none(after, r as nat, 5);
        lemma_hand_upto_same(before, after, (r - 1) as nat);
    }
}

/// The hand that counts stand for is sorted.
pub proof fn lemma_hand_upto_sorted(counts: Seq<nat>, n: nat)
    requires
        n <= 5,
    ensures
        sorted(hand_upto(counts, n)),
        forall|i: int| 0 <= i < hand_upto(counts, n).len() ==> hand_upto(counts, n)[i].rank() <= n,
    decreases n,
{
    if n > 0 {
        lemma_hand_upto_sorted(counts, (n - 1) as nat);
    }
}

/// Laying counts out as a hand and counting that hand gives the counts back,
/// and the hand is sorted and has as many cards as the counts say.
pub proof fn lemma_counts_round_trip(counts: Seq<nat>)
    requires
        counts.len() == 5,
    ensures
        counts_of(hand_of(counts)) == counts,
        sorted(hand_of(counts)),
        hand_of(counts).len() == cards_in(counts),
{
    lemma_hand_upto_sorted(counts, 5);
    lemma_counts_upto(counts, 5);
}

/// In the cards of the first `n` ranks each of those ranks occurs as often
/// as its count says, and no other rank occurs.
proof fn lemma_counts_upto(counts: Seq<nat>, n: nat)
    requires
        n <= 5,
        counts.len() == 5,
    ensures
        forall|i: int|
            0 <= i < 5 ==> #[trigger] count_in(hand_upto(counts, n), rank_at(i)) == if i < n {
                counts[i]
            } else {
                0
            },
        hand_upto(counts, n).len() == sum_upto(counts, n),
    decreases n,
{
    if n > 0 {
        lemma_counts_upto(counts, (n - 1) as nat);
        let front = hand_upto(counts, (n - 1) as nat);
        let card = rank_at(n - 1);
        assert forall|i: int| 0 <= i < 5 implies #[trigger] count_in(
            hand_upto(counts, n),
            rank_at(i),
        ) == if i < n {
            counts[i]
        } else {
            0
        } by {
            lemma_count_append_copies(front, card, counts[n - 1], rank_at(i));
        }
    }
}

/// Appending copies of one card raises the count of that card by their
/// number and no other.
proof fn lemma_count_append_copies(front: Seq<CardID>, card: CardID, n: nat, other: CardID)
    ensures
        count_in(front + copies(card, n), other) == count_in(front, other) + if other == card {
            n
        } else {
            0
        },
    decreases n,
{
    if n > 0 {
        lemma_count_append_copies(front, card, (n - 1) as nat, other);
        assert((front + copies(card, n)).drop_last() =~= front + copies(card, (n - 1) as nat));
    }
}

/// In the counts of a hand, the count at the place of a rank says how often
/// the rank occurs in the hand.
pub proof fn lemma_counts_at(hand: Seq<CardID>, counts: Seq<Maisuu>, card: CardID)
    requires
        counts_view(counts) == counts_of(hand),
    ensures
        counts.len() == 5,
        counts[card.rank() - 1]@ == count_in(hand, card),
{
    let i = card.rank() - 1;
    assert(counts_view(counts).len() == 5);
    assert(counts_of(hand)[i] == count_in(hand, rank_at(i)));
}

/// The cards of the first `n` ranks are as many as their counts add up to.
pub proof fn lemma_hand_len(counts: Seq<nat>, n: nat)
    ensures
        hand_upto(counts, n).len() == sum_upto(counts, n),
    decreases n,
{
    if n > 0 {
        lemma_hand_len(counts, (n - 1) as nat);
    }
}

} // verus!
