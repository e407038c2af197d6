//! The constant-product pricing formulas, on plain reserves.
use crate::fixed::{
    amount_of, compare_products, decimal_div, decimal_mul, div_up, fits, fixed_div, fixed_div_up, fixed_mul,
    fixed_mul_up, lemma_floor, mul_up, Dec, HUNDRED, ONE,
};
use std::cmp::Ordering;
use vstd::prelude::*;

verus! {

/// The share of an input that reaches the pool's pricing once a fee of `fee`
/// percent is taken: `(100 - fee) / 100`, in attos.
pub open spec fn fee_factor(fee: int) -> int {
    (HUNDRED - fee) * (ONE as int) / (HUNDRED as int)
}

/// The output `dy` that solves `(x + r dx)(y - dy) = x y` with fixed-point
/// truncation at each step: `dy = (dx r y) / (x + r dx)`.
pub open spec fn output_for(x: int, y: int, fee: int, dx: int) -> Option<int> {
    match fixed_mul(dx, fee_factor(fee)) {
        Some(rdx) => match fixed_mul(rdx, y) {
            Some(num) => if fits(x + rdx) {
                fixed_div(num, x + rdx)
            } else {
                None
            },
            None => None,
        },
        None => None,
    }
}

/// The input `dx` that solves `(x + r dx)(y - dy) = x y` for a wanted output
/// `dy < y`: `dx = (dy x) / (r (y - dy))` in fixed point, with the numerator
/// and the quotient rounded up and the denominator down, so that the pool
/// never asks for less than the exact formula does.
pub open spec fn input_for(x: int, y: int, fee: int, dy: int) -> Option<int> {
    match fixed_mul_up(dy, x) {
        Some(num) => match fixed_mul(fee_factor(fee), y - dy) {
            Some(den) => fixed_div_up(num, den),
            None => None,
        },
        None => None,
    }
}

/// Computes the fee factor `(100 - fee) / 100`.
pub fn fee_multiplier(fee: Dec) -> (r: Dec)
    requires
        0 <= fee@ <= HUNDRED,
    ensures
        r@ == fee_factor(fee@),
        0 <= r@ <= ONE,
{
    let rest = Dec { attos: HUNDRED - fee.attos };
    let hundred = Dec { attos: HUNDRED };
    proof {
        let a = rest@;
        assert(0 <= a * (ONE as int) / (HUNDRED as int) <= ONE) by (nonlinear_arith)
            requires
                0 <= a <= HUNDRED,
        ;
    }
    match decimal_div(rest, hundred) {
        Some(r) => r,
        None => {
            assert(false);
            Dec { attos: 0 }
        },
    }
}

/// The amount of the other token that `dx` buys against reserves `x` (of the
/// input token) and `y` (of the output token); `None` when a step leaves the
/// fixed-point range or divides by zero.
pub fn output_amount(x: Dec, y: Dec, fee: Dec, dx: Dec) -> (r: Option<Dec>)
    requires
        x@ >= 0,
        y@ >= 0,
        0 <= fee@ <= HUNDRED,
        dx@ >= 0,
    ensures
        amount_of(r) == output_for(x@, y@, fee@, dx@),
{
    let r = fee_multiplier(fee);
    let rdx = match decimal_mul(dx, r) {
        Some(v) => v,
        None => return None,
    };
    let num = match decimal_mul(rdx, y) {
        Some(v) => v,
        None => return None,
    };
    if rdx.attos > i128::MAX - x.attos {
        return None;
    }
    decimal_div(num, Dec { attos: x.attos + rdx.attos })
}

/// The amount of the input token needed to take `dy` of the output token out
/// of reserves `x` (of the input token) and `y` (of the output token), where
/// `dy < y`; `None` when a step leaves the fixed-point range or divides by zero.
pub fn input_amount(x: Dec, y: Dec, fee: Dec, dy: Dec) -> (r: Option<Dec>)
    requires
        x@ >= 0,
        0 <= dy@ < y@,
        0 <= fee@ <= HUNDRED,
    ensures
        amount_of(r) == input_for(x@, y@, fee@, dy@),
{
    let r = fee_multiplier(fee);
    let num = match mul_up(dy, x) {
        Some(v) => v,
        None => return None,
    };
    let den = match decimal_mul(r, Dec { attos: y.attos - dy.attos }) {
        Some(v) => v,
        None => return None,
    };
    div_up(num, den)
}

/// The amounts `(amount1, amount2)` taken from deposits `dm` and `dn` against
/// reserves `m` and `n`:
/// - both in full when a reserve is empty or the ratios are exactly equal
///   (`m dn == n dm`);
/// - when `m / n < dm / dn`, all of `dn` and `dn m / n` of the first token;
/// - otherwise all of `dm` and `dm n / m` of the second token.
/// `None` when a fixed-point step fails.
pub open spec fn consumed_amounts(m: int, n: int, dm: int, dn: int) -> Option<(int, int)> {
    if m == 0 || n == 0 || m * dn == n * dm {
        Some((dm, dn))
    } else if m * dn < n * dm {
        match fixed_mul(dn, m) {
            Some(w) => match fixed_div(w, n) {
                Some(a1) => Some((a1, dn)),
                None => None,
            },
            None => None,
        }
    } else {
        match fixed_mul(dm, n) {
            Some(w) => match fixed_div(w, m) {
                Some(a2) => Some((dm, a2)),
                None => None,
            },
            None => None,
        }
    }
}

/// The ownership tokens owed for adding `amount1` to a first reserve of `m`
/// when `supply` tokens are outstanding: `amount1 * supply / m`, or a fresh
/// hundred when none are.
pub open spec fn minted_amount(supply: int, m: int, amount1: int) -> Option<int> {
    if supply == 0 {
        Some(HUNDRED as int)
    } else {
        match fixed_mul(amount1, supply) {
            Some(p) => fixed_div(p, m),
            None => None,
        }
    }
}

/// The value of an optional pair of amounts.
pub open spec fn amounts_of(r: Option<(Dec, Dec)>) -> Option<(int, int)> {
    match r {
        Some((a, b)) => Some((a@, b@)),
        None => None,
    }
}

/// Computes the amounts that a deposit of `dm` and `dn` adds to reserves `m`
/// and `n`; neither exceeds its deposit.
pub fn deposit_amounts(m: Dec, n: Dec, dm: Dec, dn: Dec) -> (r: Option<(Dec, Dec)>)
    requires
        m@ >= 0,
        n@ >= 0,
        dm@ >= 0,
        dn@ >= 0,
    ensures
        amounts_of(r) == consumed_amounts(m@, n@, dm@, dn@),
        r matches Some((a1, a2)) ==> 0 <= a1@ <= dm@ && 0 <= a2@ <= dn@,
{
    if m.attos == 0 || n.attos == 0 {
        return Some((dm, dn));
    }
    match compare_products(m, dn, n, dm) {
        Ordering::Equal => Some((dm, dn)),
        Ordering::Less => {
            let w = decimal_mul(dn, m)?;
            let a1 = decimal_div(w, n)?;
            proof {
                lemma_floor(dn@ * m@, ONE as int);
                lemma_floor(w@ * (ONE as int), n@);
                assert(a1@ <= dm@) by (nonlinear_arith)
                    requires
                        a1@ * n@ <= w@ * ONE,
                        w@ * ONE <= dn@ * m@,
                        m@ * dn@ < n@ * dm@,
                        n@ > 0,
                ;
            }
            Some((a1, dn))
        },
        Ordering::Greater => {
            let w = decimal_mul(dm, n)?;
            let a2 = decimal_div(w, m)?;
            proof {
                lemma_floor(dm@ * n@, ONE as int);
                lemma_floor(w@ * (ONE as int), m@);
                assert(a2@ <= dn@) by (nonlinear_arith)
                    requires
                        a2@ * m@ <= w@ * ONE,
                        w@ * ONE <= dm@ * n@,
                        m@ * dn@ > n@ * dm@,
                        m@ > 0,
                ;
            }
            Some((dm, a2))
        },
    }
}

/// Computes the ownership tokens owed for adding `amount1` to a first reserve
/// of `m` when `supply` tokens are outstanding.
pub fn tracking_amount(supply: Dec, m: Dec, amount1: Dec) -> (r: Option<Dec>)
    requires
        supply@ >= 0,
        m@ >= 0,
        amount1@ >= 0,
    ensures
        amount_of(r) == minted_amount(supply@, m@, amount1@),
{
    if supply.attos == 0 {
        return Some(Dec { attos: HUNDRED });
    }
    let p = decimal_mul(amount1, supply)?;
    decimal_div(p, m)
}

} // verus!
