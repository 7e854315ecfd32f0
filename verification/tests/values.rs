use engarde_client::action::{Action, Attack, Direction, Movement};
use engarde_client::cards::{CardID, Maisuu, HANDS_DEFAULT_U64, HANDS_DEFAULT_U8};
use engarde_client::fraction::Fraction;
use engarde_client::rest::RestCards;

fn m(n: u8) -> Maisuu {
    Maisuu::from_u8(n).unwrap()
}

const RANKS: [CardID; 5] = [CardID::One, CardID::Two, CardID::Three, CardID::Four, CardID::Five];

#[test]
fn hand_size_is_five() {
    assert_eq!(HANDS_DEFAULT_U8, 5);
    assert_eq!(HANDS_DEFAULT_U64, 5);
    assert_eq!(CardID::MAX, 5);
}

#[test]
fn card_id_denotes_its_rank() {
    for (i, card) in RANKS.iter().enumerate() {
        assert_eq!(card.denote() as usize, i + 1);
        assert_eq!(card.denote_usize(), i + 1);
    }
}

#[test]
fn card_id_reads_back_from_numbers() {
    for card in RANKS {
        assert_eq!(CardID::from_u8(card.denote()), Some(card));
        assert_eq!(CardID::from_usize(card.denote_usize()), Some(card));
    }
    assert_eq!(CardID::from_u8(0), None);
    assert_eq!(CardID::from_u8(6), None);
    assert_eq!(CardID::from_u8(255), None);
    assert_eq!(CardID::from_usize(0), None);
    assert_eq!(CardID::from_usize(6), None);
    assert_eq!(CardID::from_usize(usize::MAX), None);
}

#[test]
fn maisuu_accepts_zero_to_five_only() {
    for n in 0..=5u8 {
        assert_eq!(Maisuu::from_u8(n).unwrap().denote(), n);
        assert_eq!(Maisuu::from_usize(n as usize).unwrap().denote_usize(), n as usize);
    }
    assert_eq!(Maisuu::from_u8(6), None);
    assert_eq!(Maisuu::from_u8(255), None);
    assert_eq!(Maisuu::from_usize(6), None);
    assert_eq!(Maisuu::from_usize(300), None);
    assert_eq!(Maisuu::from_usize(usize::MAX), None);
}

#[test]
fn maisuu_named_counts() {
    assert_eq!(Maisuu::zero().denote(), 0);
    assert_eq!(Maisuu::one().denote(), 1);
    assert_eq!(Maisuu::two().denote(), 2);
    assert_eq!(Maisuu::three().denote(), 3);
    assert_eq!(Maisuu::four().denote(), 4);
    assert_eq!(Maisuu::five().denote(), 5);
    assert_eq!(Maisuu::max().denote(), 5);
    assert_eq!(Maisuu::sokushi().denote(), 3);
}

#[test]
fn maisuu_checked_add_stops_above_five() {
    assert_eq!(m(2).checked_add(m(3)), Some(m(5)));
    assert_eq!(m(0).checked_add(m(0)), Some(m(0)));
    assert_eq!(m(3).checked_add(m(3)), None);
    assert_eq!(m(5).checked_add(m(5)), None);
}

#[test]
fn maisuu_arithmetic_saturates() {
    for a in 0..=5u8 {
        for b in 0..=5u8 {
            assert_eq!(m(a).saturating_add(m(b)).denote(), (a + b).min(5));
            assert_eq!(m(a).saturating_sub(m(b)).denote(), a.saturating_sub(b));
        }
        for n in [0u8, 1, 2, 3, 5, 6, 51, 52, 128, 255] {
            let want = (a as u32 * n as u32).min(5) as u8;
            assert_eq!(m(a).saturating_mul(n).denote(), want);
        }
    }
}

#[test]
fn direction_denotes_and_names() {
    assert_eq!(Direction::Forward.denote(), 0);
    assert_eq!(Direction::Back.denote(), 1);
    assert_eq!(Direction::Forward.as_str(), "F");
    assert_eq!(Direction::Back.as_str(), "B");
}

#[test]
fn movement_and_attack_keep_their_parts() {
    let movement = Movement::new(CardID::Four, Direction::Back);
    assert_eq!(movement.card(), CardID::Four);
    assert_eq!(movement.direction(), Direction::Back);
    let attack = Attack::new(CardID::Two, m(3));
    assert_eq!(attack.card(), CardID::Two);
    assert_eq!(attack.quantity(), m(3));
}

#[test]
fn action_index_layout() {
    assert_eq!(Action::Move(Movement::new(CardID::One, Direction::Forward)).as_index(), 0);
    assert_eq!(Action::Move(Movement::new(CardID::Five, Direction::Forward)).as_index(), 4);
    assert_eq!(Action::Move(Movement::new(CardID::One, Direction::Back)).as_index(), 5);
    assert_eq!(Action::Move(Movement::new(CardID::Five, Direction::Back)).as_index(), 9);
    assert_eq!(Action::Attack(Attack::new(CardID::One, m(1))).as_index(), 10);
    assert_eq!(Action::Attack(Attack::new(CardID::Three, m(2))).as_index(), 21);
    assert_eq!(Action::Attack(Attack::new(CardID::Five, m(5))).as_index(), 34);
    assert_eq!(Action::COUNT, 35);
}

#[test]
fn action_index_round_trips() {
    for idx in 0..35usize {
        assert_eq!(Action::from_index(idx).as_index(), idx);
    }
    assert_eq!(Action::from_index(7), Action::Move(Movement::new(CardID::Three, Direction::Back)));
    assert_eq!(Action::from_index(23), Action::Attack(Attack::new(CardID::Three, m(4))));
}

#[test]
fn get_movement_of_a_move_only() {
    let movement = Movement::new(CardID::Two, Direction::Forward);
    assert_eq!(Action::Move(movement).get_movement(), Some(movement));
    assert_eq!(Action::Attack(Attack::new(CardID::Two, m(1))).get_movement(), None);
}

#[test]
fn rest_cards_start_at_five() {
    let rest = RestCards::new();
    for i in 0..5 {
        assert_eq!(rest.get(i).denote(), 5);
    }
    assert_eq!(rest.total(), 25);
    assert_eq!(RestCards::default(), rest);
}

#[test]
fn rest_cards_from_slice() {
    let rest = RestCards::from_slice(&[m(0), m(1), m(2), m(3), m(4)]);
    for (i, card) in RANKS.iter().enumerate() {
        assert_eq!(rest.get(i).denote() as usize, i);
        assert_eq!(rest.of(*card).denote() as usize, i);
    }
    assert_eq!(rest.to_array(), [m(0), m(1), m(2), m(3), m(4)]);
    assert_eq!(rest.total(), 10);
}

#[test]
fn used_card_takes_one_for_a_move() {
    let mut rest = RestCards::new();
    rest.used_card(Action::Move(Movement::new(CardID::Two, Direction::Forward)));
    assert_eq!(rest.to_array(), [m(5), m(4), m(5), m(5), m(5)]);
    rest.used_card(Action::Move(Movement::new(CardID::Two, Direction::Back)));
    assert_eq!(rest.to_array(), [m(5), m(3), m(5), m(5), m(5)]);
}

#[test]
fn used_card_takes_twice_the_count_for_an_attack() {
    let mut rest = RestCards::new();
    rest.used_card(Action::Attack(Attack::new(CardID::Four, m(2))));
    assert_eq!(rest.to_array(), [m(5), m(5), m(5), m(1), m(5)]);
    rest.used_card(Action::Attack(Attack::new(CardID::Four, m(1))));
    assert_eq!(rest.to_array(), [m(5), m(5), m(5), m(0), m(5)]);
    let mut rest = RestCards::new();
    rest.used_card(Action::Attack(Attack::new(CardID::One, m(3))));
    assert_eq!(rest.get(0).denote(), 0);
}

#[test]
fn used_card_never_goes_below_zero() {
    let mut rest = RestCards::from_slice(&[m(0), m(1), m(0), m(0), m(0)]);
    rest.used_card(Action::Move(Movement::new(CardID::One, Direction::Forward)));
    rest.used_card(Action::Attack(Attack::new(CardID::Two, m(1))));
    assert_eq!(rest.to_array(), [m(0); 5]);
}

#[test]
fn fraction_is_kept_in_lowest_terms() {
    let f = Fraction::new(6, 8).unwrap();
    assert_eq!((f.numer(), f.denom()), (3, 4));
    let f = Fraction::new(0, 9).unwrap();
    assert_eq!((f.numer(), f.denom()), (0, 1));
    assert!(f.is_zero());
    let f = Fraction::new(7, 7).unwrap();
    assert_eq!((f.numer(), f.denom()), (1, 1));
    assert!(f.is_one());
    let large = 1_143_051_786_240;
    assert_eq!(Fraction::new(large, large * 3).unwrap(), Fraction::new(1, 3).unwrap());
}

#[test]
fn fraction_needs_a_denominator() {
    assert_eq!(Fraction::new(1, 0), None);
    assert_eq!(Fraction::new(0, 0), None);
}

#[test]
fn fraction_units() {
    assert_eq!((Fraction::zero().numer(), Fraction::zero().denom()), (0, 1));
    assert_eq!((Fraction::one().numer(), Fraction::one().denom()), (1, 1));
    assert_eq!(Fraction::from_integer(3), Fraction::new(6, 2).unwrap());
    assert!(!Fraction::one().is_zero());
    assert!(!Fraction::zero().is_one());
    assert!(!Fraction::new(1, 2).unwrap().is_one());
}

#[test]
fn fraction_order() {
    let half = Fraction::new(1, 2).unwrap();
    let three_quarters = Fraction::new(3, 4).unwrap();
    assert!(three_quarters.ge(&half));
    assert!(!half.ge(&three_quarters));
    assert!(half.ge(&half));
    assert!(Fraction::one().ge(&three_quarters));
    assert!(!Fraction::zero().ge(&half));
    let big = Fraction::new(u64::MAX, u64::MAX - 1).unwrap();
    let big2 = Fraction::new(u64::MAX - 1, u64::MAX - 2).unwrap();
    assert!(big2.ge(&big));
    assert!(!big.ge(&big2));
}
