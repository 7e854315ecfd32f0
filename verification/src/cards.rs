//! Card ranks and bounded card counts.

use vstd::prelude::*;

verus! {

/// Number of cards a player holds at the start of a round.
pub const HANDS_DEFAULT_U8: u8 = 5;

/// The same hand size as a `u64`.
pub const HANDS_DEFAULT_U64: u64 = 5;

/// The rank printed on a card, from one to five.
#[derive(Debug, Clone, Copy, Hash, PartialEq, Eq, PartialOrd, Ord, Structural)]
pub enum CardID {
    One,
    Two,
    Three,
    Four,
    Five,
}

impl CardID {
    /// Largest rank.
    pub const MAX: usize = 5;

    /// The rank as a mathematical integer in `1..=5`.
    pub open spec fn rank(self) -> int {
        match self {
            CardID::One => 1,
            CardID::Two => 2,
            CardID::Three => 3,
            CardID::Four => 4,
            CardID::Five => 5,
        }
    }

    /// The rank that the number `n` names, if it names one.
    pub open spec fn of_rank(n: int) -> Option<CardID> {
        if n == 1 {
            Some(CardID::One)
        } else if n == 2 {
            Some(CardID::Two)
        } else if n == 3 {
            Some(CardID::Three)
        } else if n == 4 {
            Some(CardID::Four)
        } else if n == 5 {
            Some(CardID::Five)
        } else {
            None
        }
    }

    /// The rank as a `u8`.
    pub fn denote(&self) -> (n: u8)
        ensures
            n == self.rank(),
    {
        match self {
            CardID::One => 1,
            CardID::Two => 2,
            CardID::Three => 3,
            CardID::Four => 4,
            CardID::Five => 5,
        }
    }

    /// The rank as a `usize`.
    pub fn denote_usize(&self) -> (n: usize)
        ensures
            n == self.rank(),
    {
        match self {
            CardID::One => 1,
            CardID::Two => 2,
            CardID::Three => 3,
            CardID::Four => 4,
            CardID::Five => 5,
        }
    }

    /// Reads a rank from a `u8`; numbers outside `1..=5` name no rank.
    pub fn from_u8(n: u8) -> (card: Option<CardID>)
        ensures
            card == CardID::of_rank(n as int),
    {
        match n {
            1 => Some(CardID::One),
            2 => Some(CardID::Two),
            3 => Some(CardID::Three),
            4 => Some(CardID::Four),
            5 => Some(CardID::Five),
            _ => None,
        }
    }

    /// Reads a rank from a `usize`; numbers outside `1..=5` name no rank.
    pub fn from_usize(n: usize) -> (card: Option<CardID>)
        ensures
            card == CardID::of_rank(n as int),
    {
        match n {
            1 => Some(CardID::One),
            2 => Some(CardID::Two),
            3 => Some(CardID::Three),
            4 => Some(CardID::Four),
            5 => Some(CardID::Five),
            _ => None,
        }
    }
}

/// Every rank lies in `1..=5`, and reading its number back gives the rank.
pub proof fn lemma_rank_round_trip(card: CardID)
    ensures
        1 <= card.rank() <= 5,
        CardID::of_rank(card.rank()) == Some(card),
{
}

/// A number names a rank exactly when it lies in `1..=5`, and the rank it
/// names carries that number.
pub proof fn lemma_of_rank(n: int)
    ensures
        CardID::of_rank(n).is_some() <==> 1 <= n <= 5,
        CardID::of_rank(n) matches Some(card) ==> card.rank() == n,
{
}

/// How many cards of one rank: a count between zero and five.
#[derive(Debug, Clone, Copy, Hash, PartialEq, Eq, PartialOrd, Ord, Structural)]
pub struct Maisuu(u8);

impl View for Maisuu {
    type V = nat;

    closed spec fn view(&self) -> nat {
        self.0 as nat
    }
}

impl Maisuu {
    /// The largest count, five.
    pub fn max() -> (m: Maisuu)
        ensures
            m@ == 5,
            m == Maisuu::of_nat(5),
    {
        Maisuu(5)
    }

    /// The count with which an attack cannot be beaten, three.
    pub fn sokushi() -> (m: Maisuu)
        ensures
            m@ == 3,
            m == Maisuu::of_nat(3),
    {
        Maisuu(3)
    }

    /// No card.
    pub fn zero() -> (m: Maisuu)
        ensures
            m@ == 0,
            m == Maisuu::of_nat(0),
    {
        Maisuu(0)
    }

    /// One card.
    pub fn one() -> (m: Maisuu)
        ensures
            m@ == 1,
            m == Maisuu::of_nat(1),
    {
        Maisuu(1)
    }

    /// Two cards.
    pub fn two() -> (m: Maisuu)
        ensures
            m@ == 2,
            m == Maisuu::of_nat(2),
    {
        Maisuu(2)
    }

    /// Three cards.
    pub fn three() -> (m: Maisuu)
        ensures
            m@ == 3,
            m == Maisuu::of_nat(3),
    {
        Maisuu(3)
    }

    /// Four cards.
    pub fn four() -> (m: Maisuu)
        ensures
            m@ == 4,
            m == Maisuu::of_nat(4),
    {
        Maisuu(4)
    }

    /// Five cards.
    pub fn five() -> (m: Maisuu)
        ensures
            m@ == 5,
            m == Maisuu::of_nat(5),
    {
        Maisuu(5)
    }

    /// A count is valid when it is at most five. Every value that executable
    /// code can hold is valid.
    #[verifier::type_invariant]
    pub open spec fn wf(self) -> bool {
        self@ <= 5
    }

    /// The count that views as `n`.
    pub closed spec fn of_nat(n: nat) -> Maisuu {
        Maisuu(n as u8)
    }

    /// Makes a count from a `u8`; numbers above five are no count.
    pub fn from_u8(n: u8) -> (m: Option<Maisuu>)
        ensures
            m.is_some() <==> n <= 5,
            m matches Some(c) ==> c@ == n && c == Maisuu::of_nat(n as nat),
    {
        if n <= 5 {
            Some(Maisuu(n))
        } else {
            None
        }
    }

    /// Makes a count from a `usize`; numbers above five are no count.
    pub fn from_usize(n: usize) -> (m: Option<Maisuu>)
        ensures
            m.is_some() <==> n <= 5,
            m matches Some(c) ==> c@ == n && c == Maisuu::of_nat(n as nat),
    {
        if n <= 5 {
            Some(Maisuu(n as u8))
        } else {
            None
        }
    }

    /// The count as a `u8`.
    pub fn denote(&self) -> (n: u8)
        ensures
            n == self@,
            n <= 5,
    {
        proof {
            use_type_invariant(self);
        }
        self.0
    }

    /// The count as a `usize`.
    pub fn denote_usize(&self) -> (n: usize)
        ensures
            n == self@,
            n <= 5,
    {
        proof {
            use_type_invariant(self);
        }
        self.0 as usize
    }

    /// Adds two counts; a sum above five is no count.
    pub fn checked_add(&self, other: Maisuu) -> (m: Option<Maisuu>)
        ensures
            m.is_some() <==> self@ + other@ <= 5,
            m matches Some(c) ==> c@ == self@ + other@,
    {
        proof {
            use_type_invariant(self);
            use_type_invariant(&other);
        }
        Maisuu::from_u8(self.0 + other.0)
    }

    /// Adds two counts, stopping at five.
    #[must_use]
    pub fn saturating_add(&self, other: Maisuu) -> (m: Maisuu)
        ensures
            m@ == spec_min5(self@ + other@),
    {
        proof {
            use_type_invariant(self);
            use_type_invariant(&other);
        }
        let n: u8 = self.0 + other.0;
        if n <= 5 {
            Maisuu(n)
        } else {
            Maisuu(5)
        }
    }

    /// Takes `other` away from this count, stopping at zero.
    #[must_use]
    pub fn saturating_sub(&self, other: Maisuu) -> (m: Maisuu)
        ensures
            m@ == spec_monus(self@, other@),
    {
        proof {
            use_type_invariant(self);
            use_type_invariant(&other);
        }
        if self.0 >= other.0 {
            Maisuu(self.0 - other.0)
        } else {
            Maisuu(0)
        }
    }

    /// Multiplies this count by `n`, stopping at five.
    #[must_use]
    pub fn saturating_mul(&self, n: u8) -> (m: Maisuu)
        ensures
            m@ == spec_min5(self@ * (n as nat)),
    {
        proof {
            use_type_invariant(self);
        }
        if n > 5 {
            if self.0 == 0 {
                assert(self@ * (n as nat) == 0) by (nonlinear_arith)
                    requires
                        self@ == 0,
                ;
                Maisuu(0)
            } else {
                assert(self@ * (n as nat) >= 5) by (nonlinear_arith)
                    requires
                        self@ >= 1,
                        n > 5,
                ;
                Maisuu(5)
            }
        } else {
            assert(self@ * (n as nat) <= 25) by (nonlinear_arith)
                requires
                    self@ <= 5,
                    n <= 5,
            ;
            let p: u8 = self.0 * n;
            if p <= 5 {
                Maisuu(p)
            } else {
                Maisuu(5)
            }
        }
    }
}

/// `n`, or five where `n` is larger.
pub open spec fn spec_min5(n: nat) -> nat {
    if n <= 5 {
        n
    } else {
        5
    }
}

/// `a - b`, or zero where `b` is larger.
pub open spec fn spec_monus(a: nat, b: nat) -> nat {
    if a >= b {
        (a - b) as nat
    } else {
        0
    }
}

/// The count of a number up to five views as that number.
pub proof fn lemma_count_of_nat(n: nat)
    requires
        n <= 5,
    ensures
        Maisuu::of_nat(n)@ == n,
        Maisuu::of_nat(n).wf(),
{
}

/// A valid count is the count of its own view.
pub proof fn lemma_count_of_view(m: Maisuu)
    requires
        m.wf(),
    ensures
        Maisuu::of_nat(m@) == m,
{
}

/// Two valid counts with the same view are the same count.
pub proof fn lemma_count_ext(a: Maisuu, b: Maisuu)
    requires
        a.wf(),
        b.wf(),
        a@ == b@,
    ensures
        a == b,
{
}

} // verus!
