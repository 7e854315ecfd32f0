use engarde_client::action::{Action, Attack, Direction, Movement};
use engarde_client::algorithm::{
    calc_possibility_attack, calc_possibility_move, calc_win_possibility, card_map_from_hands,
    chance_below, check_last, check_twice, combination, hands_from_card_map, initial_move,
    last_move, permutation, safe_possibility, win_poss_attack, ProbabilityTable,
};
use engarde_client::cards::{CardID, Maisuu};
use engarde_client::fraction::Fraction;
use engarde_client::hand::count_cards;
use engarde_client::rest::RestCards;
use num_rational::Ratio;

use CardID::{Five, Four, One, Three, Two};

const RANKS: [CardID; 5] = [One, Two, Three, Four, Five];

fn m(n: u8) -> Maisuu {
    Maisuu::from_u8(n).unwrap()
}

fn rest(counts: [u8; 5]) -> RestCards {
    RestCards::from_slice(&[m(counts[0]), m(counts[1]), m(counts[2]), m(counts[3]), m(counts[4])])
}

fn counts(counts: [u8; 5]) -> [Maisuu; 5] {
    [m(counts[0]), m(counts[1]), m(counts[2]), m(counts[3]), m(counts[4])]
}

fn frac(numer: u64, denom: u64) -> Fraction {
    Fraction::new(numer, denom).unwrap()
}

fn ratio(f: Fraction) -> Ratio<u64> {
    Ratio::new(f.numer(), f.denom())
}

/// The six chances that the table for `deck` cards in the deck holds for a
/// rank of which `target` copies are unseen.
fn row(target: u8, deck: u8) -> [Fraction; 6] {
    let table = ProbabilityTable::new(deck, &rest([target, 5, 5, 5, 5]));
    [0, 1, 2, 3, 4, 5].map(|k| table.access(One, m(k)))
}

fn attack(card: CardID, quantity: u8) -> Action {
    Action::Attack(Attack::new(card, m(quantity)))
}

fn forward(card: CardID) -> Action {
    Action::Move(Movement::new(card, Direction::Forward))
}

fn back(card: CardID) -> Action {
    Action::Move(Movement::new(card, Direction::Back))
}

#[test]
fn permutation_counts_arrangements() {
    assert_eq!(permutation(5, 0), 1);
    assert_eq!(permutation(5, 2), 20);
    assert_eq!(permutation(5, 5), 120);
    assert_eq!(permutation(20, 5), 1_860_480);
    assert_eq!(permutation(260, 5), 1_143_051_786_240);
    assert_eq!(permutation(0, 0), 1);
}

#[test]
fn permutation_is_zero_for_too_few() {
    assert_eq!(permutation(3, 4), 0);
    assert_eq!(permutation(0, 1), 0);
    assert_eq!(permutation(4, 5), 0);
}

#[test]
fn combination_counts_choices() {
    assert_eq!(combination(5, 0), 1);
    assert_eq!(combination(5, 1), 5);
    assert_eq!(combination(5, 2), 10);
    assert_eq!(combination(5, 3), 10);
    assert_eq!(combination(5, 4), 5);
    assert_eq!(combination(5, 5), 1);
    assert_eq!(combination(20, 5), 15504);
    assert_eq!(combination(3, 4), 0);
}

#[test]
fn probability_of_a_fresh_rank_in_twenty_cards() {
    let row = row(5, 15);
    let want = [
        frac(1001, 5168),
        frac(2275, 5168),
        frac(2275, 7752),
        frac(175, 2584),
        frac(25, 5168),
        frac(1, 15504),
    ];
    assert_eq!(row, want);
    assert_eq!((row[2].numer(), row[2].denom()), (2275, 7752));
}

#[test]
fn probability_rows_are_exact() {
    assert_eq!(
        row(3, 15),
        [frac(91, 228), frac(35, 76), frac(5, 38), frac(1, 114), frac(0, 1), frac(0, 1)]
    );
    assert_eq!(
        row(2, 5),
        [frac(2, 9), frac(5, 9), frac(2, 9), frac(0, 1), frac(0, 1), frac(0, 1)]
    );
    assert_eq!(
        row(4, 25),
        [
            frac(2530, 5481),
            frac(2300, 5481),
            frac(200, 1827),
            frac(50, 5481),
            frac(1, 5481),
            frac(0, 1)
        ]
    );
}

#[test]
fn probability_when_the_hand_is_all_that_is_unseen() {
    let zero = Fraction::zero();
    let one = Fraction::one();
    assert_eq!(row(5, 0), [zero, zero, zero, zero, zero, one]);
    assert_eq!(row(1, 0), [zero, one, zero, zero, zero, zero]);
    assert_eq!(row(0, 0), [one, zero, zero, zero, zero, zero]);
}

#[test]
fn probability_with_the_largest_deck() {
    let row = row(5, 255);
    assert_eq!(row[0], frac(1233926793, 1360775936));
    assert_eq!(row[5], frac(1, 9525431552));
    let table = ProbabilityTable::new(255, &RestCards::new());
    assert_eq!(table.access(Three, m(0)), frac(1233926793, 1360775936));
    assert_eq!(table.access(Three, m(5)), frac(1, 9525431552));
}

#[test]
fn every_row_of_a_table_sums_to_one() {
    let tallies =
        [[5, 5, 5, 5, 5], [0, 1, 2, 3, 4], [5, 0, 3, 1, 2], [1, 1, 1, 1, 1], [0, 0, 0, 0, 0]];
    for tally in tallies {
        for deck in [0u8, 1, 2, 5, 10, 15, 25, 100, 250, 255] {
            let table = ProbabilityTable::new(deck, &rest(tally));
            for card in RANKS {
                let mut total = Ratio::new(0u64, 1);
                for k in 0..=5 {
                    total += ratio(table.access(card, m(k)));
                }
                assert_eq!(total, Ratio::new(1, 1));
            }
        }
    }
}

#[test]
fn table_follows_the_tally_by_rank() {
    let table = ProbabilityTable::new(15, &rest([5, 3, 1, 0, 5]));
    assert_eq!(table.access(One, m(1)), frac(2275, 5168));
    assert_eq!(table.access(Two, m(1)), frac(35, 76));
    assert_eq!(table.access(Three, m(0)), frac(3, 4));
    assert_eq!(table.access(Three, m(1)), frac(1, 4));
    assert_eq!(table.access(Four, m(0)), Fraction::one());
    assert_eq!(table.access(Five, m(5)), frac(1, 15504));
}

#[test]
fn table_with_nothing_unseen_is_sure_of_zero_copies() {
    for deck in [0u8, 3, 15, 255] {
        let table = ProbabilityTable::new(deck, &rest([0, 0, 0, 0, 0]));
        for card in RANKS {
            assert_eq!(table.access(card, m(0)), Fraction::one());
            for k in 1..=5 {
                assert_eq!(table.access(card, m(k)), Fraction::zero());
            }
        }
    }
}

#[test]
fn count_cards_counts_one_rank() {
    assert_eq!(count_cards(&[One, Three, Three, Five], Three), 2);
    assert_eq!(count_cards(&[One, Three, Three, Five], Two), 0);
    assert_eq!(count_cards(&[], One), 0);
    assert_eq!(count_cards(&[Four; 7], Four), 7);
}

#[test]
fn card_map_counts_every_rank() {
    assert_eq!(card_map_from_hands(&[One, Three, Three, Five]), Some(counts([1, 0, 2, 0, 1])));
    assert_eq!(card_map_from_hands(&[]), Some(counts([0, 0, 0, 0, 0])));
    assert_eq!(card_map_from_hands(&[Two; 5]), Some(counts([0, 5, 0, 0, 0])));
    assert_eq!(card_map_from_hands(&[Five, One, Five, One, Two]), Some(counts([2, 1, 0, 0, 2])));
}

#[test]
fn card_map_refuses_more_than_five_cards() {
    assert_eq!(card_map_from_hands(&[One, One, Two, Two, Three, Three]), None);
    assert_eq!(card_map_from_hands(&[Four; 6]), None);
}

#[test]
fn hands_from_card_map_lays_the_cards_out_sorted() {
    assert_eq!(hands_from_card_map(&counts([1, 0, 2, 0, 1])), Some(vec![One, Three, Three, Five]));
    assert_eq!(hands_from_card_map(&counts([0, 0, 0, 0, 0])), Some(vec![]));
    assert_eq!(hands_from_card_map(&counts([0, 0, 0, 0, 5])), Some(vec![Five; 5]));
    assert_eq!(
        hands_from_card_map(&counts([1, 1, 1, 1, 1])),
        Some(vec![One, Two, Three, Four, Five])
    );
}

#[test]
fn hands_from_card_map_refuses_more_than_five_cards() {
    assert_eq!(hands_from_card_map(&counts([1, 1, 1, 1, 2])), None);
    assert_eq!(hands_from_card_map(&counts([5, 5, 5, 5, 5])), None);
    assert_eq!(hands_from_card_map(&counts([3, 0, 3, 0, 0])), None);
}

fn sorted_hands() -> Vec<Vec<CardID>> {
    let mut hands = vec![vec![]];
    let mut last: Vec<Vec<CardID>> = vec![vec![]];
    for _ in 0..5 {
        let mut next = Vec::new();
        for hand in &last {
            for card in RANKS {
                if hand.last().map_or(true, |&top| top <= card) {
                    let mut longer = hand.clone();
                    longer.push(card);
                    next.push(longer);
                }
            }
        }
        hands.extend(next.iter().cloned());
        last = next;
    }
    hands
}

#[test]
fn counting_a_sorted_hand_and_laying_it_out_gives_it_back() {
    let hands = sorted_hands();
    assert_eq!(hands.len(), 1 + 5 + 15 + 35 + 70 + 126);
    for hand in hands {
        let map = card_map_from_hands(&hand).unwrap();
        assert_eq!(hands_from_card_map(&map), Some(hand));
    }
}

#[test]
fn laying_out_counts_and_counting_gives_them_back() {
    for hand in sorted_hands() {
        let map = card_map_from_hands(&hand).unwrap();
        let laid = hands_from_card_map(&map).unwrap();
        assert_eq!(card_map_from_hands(&laid), Some(map));
    }
}

#[test]
fn an_unsorted_hand_comes_back_sorted() {
    let map = card_map_from_hands(&[Five, One, Three, One]).unwrap();
    assert_eq!(hands_from_card_map(&map), Some(vec![One, One, Three, Five]));
}

#[test]
fn check_twice_is_for_the_double_of_the_rank() {
    assert!(check_twice(6, 3));
    assert!(check_twice(2, 1));
    assert!(check_twice(0, 0));
    assert!(!check_twice(7, 3));
    assert!(!check_twice(5, 3));
    assert!(!check_twice(0, 128));
    assert!(!check_twice(254, 255));
}

#[test]
fn chance_below_adds_up_the_first_entries() {
    let table = ProbabilityTable::new(15, &RestCards::new());
    assert_eq!(chance_below(&table, Two, 0), Fraction::zero());
    assert_eq!(chance_below(&table, Two, 1), frac(1001, 5168));
    assert_eq!(chance_below(&table, Two, 2), frac(819, 1292));
    assert_eq!(chance_below(&table, Two, 3), frac(7189, 7752));
    assert_eq!(chance_below(&table, Two, 4), frac(203, 204));
    assert_eq!(chance_below(&table, Two, 5), frac(203, 204));
    assert_eq!(chance_below(&table, Two, 255), frac(203, 204));
}

#[test]
fn calc_possibilities_by_count_held() {
    let table = ProbabilityTable::new(15, &RestCards::new());
    let hand = counts([0, 2, 0, 1, 0]);
    assert_eq!(calc_possibility_attack(&hand, &table, Two), frac(7189, 7752));
    assert_eq!(calc_possibility_attack(&hand, &table, One), frac(1001, 5168));
    assert_eq!(calc_win_possibility(&hand, &table, Two), frac(819, 1292));
    assert_eq!(calc_win_possibility(&hand, &table, Four), frac(1001, 5168));
    assert_eq!(calc_win_possibility(&hand, &table, One), Fraction::zero());
    assert_eq!(calc_possibility_move(&hand, &table, Two, false), frac(7189, 7752));
    assert_eq!(calc_possibility_move(&hand, &table, Two, true), frac(819, 1292));
    assert_eq!(calc_possibility_move(&hand, &table, Three, true), frac(1001, 5168));
    assert_eq!(calc_possibility_move(&hand, &table, Three, false), frac(1001, 5168));
}

#[test]
fn attack_is_surely_safe_when_every_unseen_copy_is_held() {
    let tally = rest([5, 5, 3, 5, 5]);
    let table = ProbabilityTable::new(10, &tally);
    let hand = [Three, Three, Three];
    assert_eq!(safe_possibility(3, tally, &hand, &table, attack(Three, 3)), Some(Fraction::one()));
    assert_eq!(safe_possibility(3, tally, &hand, &table, attack(Three, 1)), Some(Fraction::one()));
}

#[test]
fn attack_safety_adds_up_what_the_hand_can_match() {
    let tally = RestCards::new();
    let table = ProbabilityTable::new(15, &tally);
    assert_eq!(
        safe_possibility(3, tally, &[Three, Three], &table, attack(Three, 2)),
        Some(frac(7189, 7752))
    );
    assert_eq!(
        safe_possibility(3, tally, &[One, Two], &table, attack(Three, 1)),
        Some(frac(1001, 5168))
    );
    assert_eq!(
        safe_possibility(3, tally, &[Three, Three, Three, Three], &table, attack(Three, 4)),
        Some(frac(203, 204))
    );
    let tally = rest([5, 5, 5, 5, 3]);
    let table = ProbabilityTable::new(15, &tally);
    assert_eq!(
        safe_possibility(5, tally, &[One, Five], &table, attack(Five, 1)),
        Some(frac(49, 57))
    );
}

#[test]
fn move_forward_is_judged_at_the_distance_it_reaches() {
    let tally = rest([5, 5, 3, 5, 5]);
    let table = ProbabilityTable::new(15, &tally);
    let hand = [One, Three, Four, Four, Five];
    assert_eq!(safe_possibility(7, tally, &hand, &table, forward(Four)), Some(frac(49, 57)));
    assert_eq!(safe_possibility(8, tally, &hand, &table, forward(Four)), Some(frac(819, 1292)));
    assert_eq!(safe_possibility(6, tally, &hand, &table, forward(Four)), Some(frac(1001, 5168)));
    assert_eq!(safe_possibility(9, tally, &hand, &table, forward(Four)), Some(frac(819, 1292)));
}

#[test]
fn move_forward_onto_its_own_distance_keeps_one_copy_less() {
    let tally = RestCards::new();
    let table = ProbabilityTable::new(15, &tally);
    assert_eq!(
        safe_possibility(6, tally, &[Three, Three], &table, forward(Three)),
        Some(frac(819, 1292))
    );
    assert_eq!(
        safe_possibility(6, tally, &[Three], &table, forward(Three)),
        Some(frac(1001, 5168))
    );
    let tally = rest([5, 5, 1, 5, 5]);
    let table = ProbabilityTable::new(15, &tally);
    assert_eq!(
        safe_possibility(6, tally, &[Three, Three], &table, forward(Three)),
        Some(Fraction::one())
    );
    assert_eq!(safe_possibility(6, tally, &[Three], &table, forward(Three)), Some(frac(3, 4)));
}

#[test]
fn move_has_no_safety_where_it_reaches_no_card_distance() {
    let tally = RestCards::new();
    let table = ProbabilityTable::new(15, &tally);
    let hand = [One, Two, Three];
    assert_eq!(safe_possibility(9, tally, &hand, &table, forward(Three)), None);
    assert_eq!(safe_possibility(3, tally, &hand, &table, forward(Three)), None);
    assert_eq!(safe_possibility(2, tally, &hand, &table, forward(Three)), None);
    assert_eq!(safe_possibility(0, tally, &hand, &table, forward(One)), None);
    assert_eq!(safe_possibility(3, tally, &hand, &table, back(Three)), None);
    assert_eq!(safe_possibility(5, tally, &hand, &table, back(One)), None);
    assert_eq!(safe_possibility(255, tally, &hand, &table, back(Two)), None);
    assert_eq!(safe_possibility(255, tally, &hand, &table, forward(Two)), None);
}

#[test]
fn move_back_is_judged_at_the_distance_it_reaches() {
    let tally = rest([5, 5, 5, 3, 5]);
    let table = ProbabilityTable::new(15, &tally);
    let hand = [One, Two, Four];
    assert_eq!(safe_possibility(2, tally, &hand, &table, back(Two)), Some(frac(49, 57)));
    assert_eq!(safe_possibility(3, tally, &hand, &table, back(One)), Some(frac(49, 57)));
    assert_eq!(safe_possibility(1, tally, &hand, &table, back(One)), Some(frac(819, 1292)));
    assert_eq!(safe_possibility(0, tally, &hand, &table, back(Two)), Some(frac(819, 1292)));
    assert_eq!(safe_possibility(1, tally, &hand, &table, back(Two)), Some(frac(1001, 5168)));
}

#[test]
fn move_is_surely_safe_when_every_unseen_copy_is_held() {
    let tally = rest([5, 1, 5, 5, 5]);
    let table = ProbabilityTable::new(15, &tally);
    let hand = [Two, Five];
    assert_eq!(safe_possibility(20, tally, &hand, &table, forward(Two)), Some(Fraction::one()));
    assert_eq!(safe_possibility(20, tally, &hand, &table, back(Two)), Some(Fraction::one()));
    assert_eq!(safe_possibility(4, tally, &hand, &table, back(Two)), Some(Fraction::one()));
    assert_eq!(safe_possibility(4, tally, &hand, &table, forward(Two)), Some(frac(3, 4)));
    assert_eq!(safe_possibility(2, tally, &hand, &table, forward(Two)), Some(Fraction::one()));
}

#[test]
fn safety_refuses_a_hand_of_more_than_five() {
    let tally = RestCards::new();
    let table = ProbabilityTable::new(15, &tally);
    let hand = [One, One, Two, Two, Three, Three];
    assert_eq!(safe_possibility(3, tally, &hand, &table, attack(Three, 2)), None);
    assert_eq!(safe_possibility(7, tally, &hand, &table, forward(Two)), None);
    assert_eq!(safe_possibility(2, tally, &hand, &table, back(Two)), None);
    assert_eq!(win_poss_attack(tally, &hand, &table, attack(Three, 2)), None);
}

#[test]
fn win_is_zero_for_a_move() {
    let tally = RestCards::new();
    let table = ProbabilityTable::new(15, &tally);
    assert_eq!(win_poss_attack(tally, &[One, Two], &table, forward(Two)), Some(Fraction::zero()));
    assert_eq!(win_poss_attack(tally, &[One, Two], &table, back(One)), Some(Fraction::zero()));
    assert_eq!(win_poss_attack(tally, &[One; 6], &table, back(One)), Some(Fraction::zero()));
}

#[test]
fn win_is_sure_with_more_copies_than_are_unseen() {
    let tally = rest([5, 5, 2, 5, 5]);
    let table = ProbabilityTable::new(10, &tally);
    let hand = [Three, Three, Three];
    assert_eq!(win_poss_attack(tally, &hand, &table, attack(Three, 3)), Some(Fraction::one()));
}

#[test]
fn win_adds_up_what_the_hand_beats() {
    let tally = RestCards::new();
    let table = ProbabilityTable::new(15, &tally);
    assert_eq!(
        win_poss_attack(tally, &[Three, Three], &table, attack(Three, 2)),
        Some(frac(819, 1292))
    );
    assert_eq!(
        win_poss_attack(tally, &[One, Two], &table, attack(Three, 1)),
        Some(Fraction::zero())
    );
    assert_eq!(
        win_poss_attack(tally, &[Three, Three, Three, Three], &table, attack(Three, 4)),
        Some(frac(203, 204))
    );
    let tally = rest([5, 5, 3, 5, 5]);
    let table = ProbabilityTable::new(15, &tally);
    assert_eq!(
        win_poss_attack(tally, &[Three, Three, Three], &table, attack(Three, 3)),
        Some(frac(113, 114))
    );
    assert_eq!(
        safe_possibility(3, tally, &[Three, Three, Three], &table, attack(Three, 3)),
        Some(Fraction::one())
    );
}

#[test]
fn chances_stay_between_zero_and_one_and_win_never_passes_safety() {
    let tallies =
        [[5, 5, 5, 5, 5], [0, 1, 2, 3, 4], [4, 3, 2, 1, 0], [1, 1, 1, 1, 1], [0, 0, 0, 0, 0]];
    let hands: [&[CardID]; 6] = [
        &[],
        &[One],
        &[Three, Three, Three],
        &[One, Two, Three, Four, Five],
        &[Two, Two, Two, Two, Five],
        &[Four, Four, Four, Four, Four],
    ];
    let one = Ratio::new(1u64, 1);
    for tally in tallies {
        let tally = rest(tally);
        for deck in [0u8, 5, 15, 255] {
            let table = ProbabilityTable::new(deck, &tally);
            for hand in hands {
                for card in RANKS {
                    let action = attack(card, 1);
                    let safe = ratio(safe_possibility(3, tally, hand, &table, action).unwrap());
                    let win = ratio(win_poss_attack(tally, hand, &table, action).unwrap());
                    assert!(win <= safe);
                    assert!(safe <= one);
                    for distance in 0..=12u8 {
                        for step in [forward(card), back(card)] {
                            if let Some(p) = safe_possibility(distance, tally, hand, &table, step) {
                                assert!(ratio(p) <= one);
                                assert!(p.numer() <= p.denom());
                            }
                        }
                    }
                }
            }
        }
    }
}

#[test]
fn check_last_compares_unseen_cards_with_parries() {
    assert!(check_last(0, rest([0, 0, 1, 0, 0])));
    assert!(check_last(0, rest([0, 0, 0, 0, 0])));
    assert!(!check_last(0, rest([0, 1, 1, 0, 0])));
    assert!(check_last(1, rest([0, 1, 1, 0, 0])));
    assert!(check_last(255, RestCards::new()));
    assert!(!check_last(23, RestCards::new()));
    assert!(check_last(24, RestCards::new()));
}

#[test]
fn last_move_names_the_distance_of_a_forced_win() {
    let tally = rest([0, 0, 1, 0, 0]);
    let table = ProbabilityTable::new(0, &tally);
    assert_eq!(last_move(tally, &counts([0, 0, 2, 0, 0]), (13, 10), 0, &table), Some(3));
    assert_eq!(last_move(tally, &counts([1, 0, 2, 0, 1]), (3, 0), 0, &table), Some(3));
}

#[test]
fn last_move_when_the_table_shows_the_opponent_holds_none() {
    let tally = rest([0, 0, 1, 0, 0]);
    let seen = ProbabilityTable::new(0, &rest([0, 0, 0, 0, 0]));
    assert_eq!(last_move(tally, &counts([0, 0, 1, 0, 0]), (13, 10), 0, &seen), Some(3));
    let unseen = ProbabilityTable::new(0, &tally);
    assert_eq!(last_move(tally, &counts([0, 0, 1, 0, 0]), (13, 10), 0, &unseen), None);
}

#[test]
fn last_move_needs_the_last_action() {
    let tally = rest([0, 1, 1, 0, 0]);
    let table = ProbabilityTable::new(0, &tally);
    let hand = counts([0, 0, 2, 0, 0]);
    assert_eq!(last_move(tally, &hand, (13, 10), 0, &table), None);
    assert_eq!(last_move(tally, &hand, (13, 10), 1, &table), Some(3));
    assert_eq!(last_move(tally, &hand, (13, 10), 255, &table), Some(3));
}

#[test]
fn last_move_needs_the_card_of_the_distance() {
    let tally = rest([0, 0, 1, 0, 0]);
    let table = ProbabilityTable::new(0, &tally);
    assert_eq!(last_move(tally, &counts([0, 0, 2, 0, 0]), (14, 10), 0, &table), None);
    assert_eq!(last_move(tally, &counts([0, 0, 0, 2, 0]), (13, 10), 0, &table), None);
    assert_eq!(last_move(tally, &counts([0, 0, 0, 2, 0]), (14, 10), 0, &table), Some(4));
}

#[test]
fn last_move_needs_a_distance_of_a_card() {
    let tally = rest([0, 0, 0, 0, 0]);
    let table = ProbabilityTable::new(0, &tally);
    let hand = counts([1, 1, 1, 1, 1]);
    assert_eq!(last_move(tally, &hand, (10, 10), 0, &table), None);
    assert_eq!(last_move(tally, &hand, (10, 11), 0, &table), None);
    assert_eq!(last_move(tally, &hand, (16, 10), 0, &table), None);
    assert_eq!(last_move(tally, &hand, (i64::MAX, i64::MIN), 0, &table), None);
    assert_eq!(last_move(tally, &hand, (i64::MIN, i64::MAX), 0, &table), None);
    assert_eq!(last_move(tally, &hand, (15, 10), 0, &table), Some(5));
    assert_eq!(last_move(tally, &hand, (-9, -10), 0, &table), Some(1));
}

#[test]
fn last_move_needs_a_sure_win() {
    let tally = rest([0, 0, 1, 0, 0]);
    let table = ProbabilityTable::new(3, &tally);
    assert_eq!(last_move(tally, &counts([0, 0, 1, 0, 0]), (13, 10), 0, &table), None);
    assert_eq!(last_move(tally, &counts([0, 0, 2, 0, 0]), (13, 10), 0, &table), Some(3));
}

#[test]
fn last_move_refuses_counts_of_more_than_five_cards() {
    let tally = rest([0, 0, 1, 0, 0]);
    let table = ProbabilityTable::new(0, &tally);
    assert_eq!(last_move(tally, &counts([2, 2, 2, 0, 0]), (13, 10), 0, &table), None);
}

#[test]
fn older_opening_reads_marks() {
    assert_eq!(initial_move(10, &[0, 1, 2]), None);
    assert_eq!(initial_move(0, &[]), None);
    assert_eq!(initial_move(11, &[]), Some(1));
    assert_eq!(initial_move(11, &[0, 0, 0]), Some(1));
    assert_eq!(initial_move(11, &[1, 2, 0]), Some(1));
    assert_eq!(initial_move(20, &[0, 1, 1]), Some(2));
    assert_eq!(initial_move(20, &[2, 0, 1]), Some(1));
    assert_eq!(initial_move(20, &[2, 2, 1]), Some(2));
    assert_eq!(initial_move(u64::MAX, &[0, 0, 2, 2]), Some(3));
}
