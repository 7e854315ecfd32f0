//! Counting arrangements, and the chance that a hand of five cards drawn
//! from the unseen cards holds a given number of copies of one rank.

use vstd::prelude::*;

verus! {

/// The product `n * (n - 1) * ... * (n - r + 1)` of `r` falling factors.
pub open spec fn falling(n: int, r: nat) -> int
    decreases r,
{
    if r == 0 {
        1
    } else {
        falling(n, (r - 1) as nat) * (n - r + 1)
    }
}

/// Number of ways to line up `r` out of `n` things: none where `n < r`.
pub open spec fn perm(n: nat, r: nat) -> nat {
    if n < r {
        0
    } else {
        falling(n as int, r) as nat
    }
}

/// Number of ways to pick `r` out of `n` things without order.
pub open spec fn comb(n: nat, r: nat) -> nat {
    perm(n, r) / perm(r, r)
}

/// Number of ordered hands of five, out of `total` unseen cards of which
/// `target` have the rank in question, that hold exactly `k` of that rank.
pub open spec fn hyper_num(target: nat, total: nat, k: nat) -> nat {
    comb(5, k) * perm(target, k) * perm((total - target) as nat, (5 - k) as nat)
}

/// Number of ordered hands of five out of `total` unseen cards.
pub open spec fn hyper_den(total: nat) -> nat {
    perm(total, 5)
}

/// The first `n` of the six numerators added up.
pub open spec fn hyper_sum(target: nat, total: nat, n: nat) -> nat
    decreases n,
{
    if n == 0 {
        0
    } else {
        hyper_sum(target, total, (n - 1) as nat) + hyper_num(target, total, (n - 1) as nat)
    }
}

/// A product of falling factors of a natural number is not negative, and is
/// positive while the factors last.
pub proof fn lemma_falling_sign(n: nat, r: nat)
    requires
        r <= n,
    ensures
        falling(n as int, r) >= 1,
    decreases r,
{
    if r > 0 {
        lemma_falling_sign(n, (r - 1) as nat);
        assert(falling(n as int, (r - 1) as nat) * (n - r + 1) >= 1) by (nonlinear_arith)
            requires
                falling(n as int, (r - 1) as nat) >= 1,
                n - r + 1 >= 1,
        ;
    }
}

/// With more factors than the number is large, one factor is zero.
pub proof fn lemma_falling_zero(n: nat, r: nat)
    requires
        n < r,
    ensures
        falling(n as int, r) == 0,
    decreases r,
{
    if n + 1 < r {
        lemma_falling_zero(n, (r - 1) as nat);
        assert(falling(n as int, (r - 1) as nat) * (n - r + 1) == 0) by (nonlinear_arith)
            requires
                falling(n as int, (r - 1) as nat) == 0,
        ;
    } else {
        assert(falling(n as int, (r - 1) as nat) * (n - r + 1) == 0) by (nonlinear_arith)
            requires
                n - r + 1 == 0,
        ;
    }
}

/// `perm` is the product of falling factors for every natural number.
pub proof fn lemma_perm_is_falling(n: nat, r: nat)
    ensures
        perm(n, r) == falling(n as int, r),
{
    if n < r {
        lemma_falling_zero(n, r);
    } else {
        lemma_falling_sign(n, r);
    }
}

/// A shorter product of falling factors is no larger than a longer one that
/// the number still covers.
pub proof fn lemma_falling_grows(n: nat, j: nat, r: nat)
    requires
        j <= r <= n,
    ensures
        1 <= falling(n as int, j) <= falling(n as int, r),
    decreases r - j,
{
    lemma_falling_sign(n, j);
    if j < r {
        lemma_falling_grows(n, j, (r - 1) as nat);
        assert(falling(n as int, (r - 1) as nat) * (n - r + 1) >= falling(n as int, (r - 1) as nat))
            by (nonlinear_arith)
            requires
                falling(n as int, (r - 1) as nat) >= 1,
                n - r + 1 >= 1,
        ;
    }
}

/// The products of up to five falling factors, written out.
pub proof fn lemma_falling_unfold(n: int)
    ensures
        falling(n, 0) == 1,
        falling(n, 1) == n,
        falling(n, 2) == n * (n - 1),
        falling(n, 3) == n * (n - 1) * (n - 2),
        falling(n, 4) == n * (n - 1) * (n - 2) * (n - 3),
        falling(n, 5) == n * (n - 1) * (n - 2) * (n - 3) * (n - 4),
{
    reveal_with_fuel(falling, 6);
}

/// The six ways to pick out of five.
pub proof fn lemma_comb_five()
    ensures
        comb(5, 0) == 1,
        comb(5, 1) == 5,
        comb(5, 2) == 10,
        comb(5, 3) == 10,
        comb(5, 4) == 5,
        comb(5, 5) == 1,
{
    lemma_falling_unfold(1);
    lemma_falling_unfold(2);
    lemma_falling_unfold(3);
    lemma_falling_unfold(4);
    lemma_falling_unfold(5);
    assert(perm(5, 0) == 1 && perm(0, 0) == 1);
    assert(perm(5, 1) == 5 && perm(1, 1) == 1);
    assert(perm(5, 2) == 20 && perm(2, 2) == 2);
    assert(perm(5, 3) == 60 && perm(3, 3) == 6);
    assert(perm(5, 4) == 120 && perm(4, 4) == 24);
}

/// The products of up to five falling factors as polynomials.
proof fn lemma_falling_poly(x: int) -> (p: (int, int, int, int))
    ensures
        p.0 == x * x,
        p.1 == p.0 * x,
        p.2 == p.1 * x,
        p.3 == p.2 * x,
        falling(x, 2) == p.0 - x,
        falling(x, 3) == p.1 - 3 * p.0 + 2 * x,
        falling(x, 4) == p.2 - 6 * p.1 + 11 * p.0 - 6 * x,
        falling(x, 5) == p.3 - 10 * p.2 + 35 * p.1 - 50 * p.0 + 24 * x,
{
    let a = x * x;
    let b = a * x;
    let c = b * x;
    let d = c * x;
    let f2 = falling(x, 2);
    let f3 = falling(x, 3);
    let f4 = falling(x, 4);
    let f5 = falling(x, 5);
    reveal_with_fuel(falling, 6);
    assert(f3 == f2 * (x - 2));
    assert(f4 == f3 * (x - 3));
    assert(f5 == f4 * (x - 4));
    assert(f2 == a - x) by (nonlinear_arith)
        requires
            f2 == x * (x - 1),
            a == x * x,
    ;
    assert(f3 == b - 3 * a + 2 * x) by (nonlinear_arith)
        requires
            f3 == f2 * (x - 2),
            f2 == a - x,
            a == x * x,
            b == a * x,
    ;
    assert(f4 == c - 6 * b + 11 * a - 6 * x) by (nonlinear_arith)
        requires
            f4 == f3 * (x - 3),
            f3 == b - 3 * a + 2 * x,
            a == x * x,
            b == a * x,
            c == b * x,
    ;
    assert(f5 == d - 10 * c + 35 * b - 50 * a + 24 * x) by (nonlinear_arith)
        requires
            f5 == f4 * (x - 4),
            f4 == c - 6 * b + 11 * a - 6 * x,
            a == x * x,
            b == a * x,
            c == b * x,
            d == c * x,
    ;
    (a, b, c, d)
}

/// One more thing to choose from: the arrangements either leave it out or
/// put it in one of the places.
proof fn lemma_falling_step(x: int)
    ensures
        falling(x + 1, 1) == falling(x, 1) + 1,
        falling(x + 1, 2) == falling(x, 2) + 2 * falling(x, 1),
        falling(x + 1, 3) == falling(x, 3) + 3 * falling(x, 2),
        falling(x + 1, 4) == falling(x, 4) + 4 * falling(x, 3),
        falling(x + 1, 5) == falling(x, 5) + 5 * falling(x, 4),
{
    lemma_falling_unfold(x);
    lemma_falling_unfold(x + 1);
    let p = lemma_falling_poly(x);
    let q = lemma_falling_poly(x + 1);
    assert(q.0 == p.0 + 2 * x + 1) by (nonlinear_arith)
        requires
            q.0 == (x + 1) * (x + 1),
            p.0 == x * x,
    ;
    assert(q.1 == p.1 + 3 * p.0 + 3 * x + 1) by (nonlinear_arith)
        requires
            q.1 == q.0 * (x + 1),
            q.0 == p.0 + 2 * x + 1,
            p.0 == x * x,
            p.1 == p.0 * x,
    ;
    assert(q.2 == p.2 + 4 * p.1 + 6 * p.0 + 4 * x + 1) by (nonlinear_arith)
        requires
            q.2 == q.1 * (x + 1),
            q.1 == p.1 + 3 * p.0 + 3 * x + 1,
            p.0 == x * x,
            p.1 == p.0 * x,
            p.2 == p.1 * x,
    ;
    assert(q.3 == p.3 + 5 * p.2 + 10 * p.1 + 10 * p.0 + 5 * x + 1) by (nonlinear_arith)
        requires
            q.3 == q.2 * (x + 1),
            q.2 == p.2 + 4 * p.1 + 6 * p.0 + 4 * x + 1,
            p.0 == x * x,
            p.1 == p.0 * x,
            p.2 == p.1 * x,
            p.3 == p.2 * x,
    ;
}

/// A product with a known factor.
proof fn lemma_scaled(factor: int, known: int, other: int)
    requires
        factor == known,
    ensures
        factor * other == known * other,
{
}

/// The terms of Vandermonde's identity once the arrangements of the first
/// `t` things are known numbers.
proof fn lemma_vandermonde_terms(t: int, m: int, h: (int, int, int, int, int))
    requires
        falling(t, 0) == 1,
        falling(t, 1) == h.0,
        falling(t, 2) == h.1,
        falling(t, 3) == h.2,
        falling(t, 4) == h.3,
        falling(t, 5) == h.4,
    ensures
        falling(t, 0) * falling(m, 5) + 5 * (falling(t, 1) * falling(m, 4)) + 10 * (falling(t, 2)
            * falling(m, 3)) + 10 * (falling(t, 3) * falling(m, 2)) + 5 * (falling(t, 4) * falling(
            m,
            1,
        )) + falling(t, 5) * falling(m, 0) == falling(m, 5) + 5 * (h.0 * falling(m, 4)) + 10 * (h.1
            * falling(m, 3)) + 10 * (h.2 * falling(m, 2)) + 5 * (h.3 * falling(m, 1)) + h.4,
{
    lemma_falling_unfold(m);
    lemma_scaled(falling(t, 0), 1, falling(m, 5));
    lemma_scaled(falling(t, 1), h.0, falling(m, 4));
    lemma_scaled(falling(t, 2), h.1, falling(m, 3));
    lemma_scaled(falling(t, 3), h.2, falling(m, 2));
    lemma_scaled(falling(t, 4), h.3, falling(m, 1));
    lemma_scaled(falling(t, 5), h.4, falling(m, 0));
}

/// Vandermonde's identity for five falling factors: lining up five out of
/// `t + m` things, sorted by how many of the first `t` are taken.
pub proof fn lemma_vandermonde_five(t: int, m: int)
    requires
        0 <= t <= 5,
    ensures
        falling(t + m, 5) == falling(t, 0) * falling(m, 5) + 5 * (falling(t, 1) * falling(m, 4))
            + 10 * (falling(t, 2) * falling(m, 3)) + 10 * (falling(t, 3) * falling(m, 2)) + 5 * (
        falling(t, 4) * falling(m, 1)) + falling(t, 5) * falling(m, 0),
{
    lemma_falling_unfold(m);
    lemma_falling_step(m);
    lemma_falling_step(m + 1);
    lemma_falling_step(m + 2);
    lemma_falling_step(m + 3);
    lemma_falling_step(m + 4);
    if t == 0 {
        lemma_falling_unfold(0);
        lemma_vandermonde_terms(t, m, (0, 0, 0, 0, 0));
    } else if t == 1 {
        lemma_falling_unfold(1);
        lemma_vandermonde_terms(t, m, (1, 0, 0, 0, 0));
    } else if t == 2 {
        lemma_falling_unfold(2);
        lemma_vandermonde_terms(t, m, (2, 2, 0, 0, 0));
    } else if t == 3 {
        lemma_falling_unfold(3);
        lemma_vandermonde_terms(t, m, (3, 6, 6, 0, 0));
    } else if t == 4 {
        lemma_falling_unfold(4);
        lemma_vandermonde_terms(t, m, (4, 12, 24, 24, 0));
    } else {
        lemma_falling_unfold(5);
        lemma_vandermonde_terms(t, m, (5, 20, 60, 120, 120));
    }
}

/// One numerator written with falling factors.
proof fn lemma_hyper_num_falling(target: nat, total: nat, k: nat, c: nat)
    requires
        target <= total,
        k <= 5,
        c == comb(5, k),
    ensures
        hyper_num(target, total, k) == c * (falling(target as int, k) * falling(
            total - target,
            (5 - k) as nat,
        )),
        hyper_num(target, total, k) >= 0,
{
    let m = (total - target) as nat;
    lemma_perm_is_falling(target, k);
    lemma_perm_is_falling(m, (5 - k) as nat);
    let h = falling(target as int, k);
    let g = falling(m as int, (5 - k) as nat);
    assert(c * h * g == c * (h * g)) by (nonlinear_arith);
}

/// The six numerators add up to the denominator: the chances of holding
/// zero to five copies of a rank leave nothing out and overlap nowhere.
pub proof fn lemma_hyper_total(target: nat, total: nat)
    requires
        target <= 5 <= total,
    ensures
        hyper_sum(target, total, 6) == hyper_den(total),
        hyper_den(total) >= 1,
{
    let m = total - target;
    lemma_vandermonde_five(target as int, m);
    lemma_comb_five();
    lemma_perm_is_falling(total, 5);
    lemma_falling_sign(total, 5);
    lemma_hyper_num_falling(target, total, 0, 1);
    lemma_hyper_num_falling(target, total, 1, 5);
    lemma_hyper_num_falling(target, total, 2, 10);
    lemma_hyper_num_falling(target, total, 3, 10);
    lemma_hyper_num_falling(target, total, 4, 5);
    lemma_hyper_num_falling(target, total, 5, 1);
    assert(target + m == total);
    reveal_with_fuel(hyper_sum, 7);
}

/// Adding more of the numerators never gives less.
pub proof fn lemma_hyper_sum_grows(target: nat, total: nat, i: nat, j: nat)
    requires
        i <= j,
    ensures
        hyper_sum(target, total, i) <= hyper_sum(target, total, j),
    decreases j - i,
{
    if i < j {
        lemma_hyper_sum_grows(target, total, i, (j - 1) as nat);
    }
}

/// The numerators added up so far never pass the denominator.
pub proof fn lemma_hyper_sum_bounds(target: nat, total: nat, i: nat, j: nat)
    requires
        target <= 5 <= total,
        i <= j <= 6,
    ensures
        hyper_sum(target, total, i) <= hyper_sum(target, total, j) <= hyper_den(total),
{
    lemma_hyper_total(target, total);
    lemma_hyper_sum_grows(target, total, i, j);
    lemma_hyper_sum_grows(target, total, j, 6);
}

/// With no unseen copy of a rank the opponent surely holds none: the
/// numerator for zero copies is the whole denominator and the others vanish.
pub proof fn lemma_hyper_none_unseen(total: nat, k: nat)
    requires
        5 <= total,
        k <= 5,
    ensures
        k == 0 ==> hyper_num(0, total, k) == hyper_den(total),
        k > 0 ==> hyper_num(0, total, k) == 0,
{
    lemma_comb_five();
    lemma_falling_unfold(0);
    if k == 0 {
        assert(perm(0, 0) == 1);
        assert(1 * 1 * perm(total, 5) == perm(total, 5)) by (nonlinear_arith);
    } else {
        assert(perm(0, k) == 0);
        assert(comb(5, k) * 0 * perm(total, (5 - k) as nat) == 0) by (nonlinear_arith);
    }
}

/// The denominator for at most `bound` unseen cards is at most the fifth
/// power of `bound`.
pub proof fn lemma_hyper_den_bound(total: nat, bound: nat)
    requires
        total <= bound,
    ensures
        perm(total, 5) <= bound * bound * bound * bound * bound,
{
    if total >= 5 {
        lemma_falling_unfold(total as int);
        let a = total as int;
        let b = bound as int;
        assert(a * (a - 1) <= b * b) by (nonlinear_arith)
            requires
                5 <= a <= b,
        ;
        assert(a * (a - 1) * (a - 2) <= b * b * b) by (nonlinear_arith)
            requires
                5 <= a <= b,
                0 <= a * (a - 1) <= b * b,
        ;
        assert(a * (a - 1) * (a - 2) * (a - 3) <= b * b * b * b) by (nonlinear_arith)
            requires
                5 <= a <= b,
                0 <= a * (a - 1) * (a - 2) <= b * b * b,
        ;
        assert(a * (a - 1) * (a - 2) * (a - 3) * (a - 4) <= b * b * b * b * b) by (nonlinear_arith)
            requires
                5 <= a <= b,
                0 <= a * (a - 1) * (a - 2) * (a - 3) <= b * b * b * b,
        ;
    } else {
        assert(0 <= bound * bound * bound * bound * bound) by (nonlinear_arith);
    }
}

} // verus!
