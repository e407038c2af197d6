//! Fixed-point decimal amounts with eighteen decimal places, held as a count
//! of attos (units of 10^-18). Multiplication and division go through
//! scrypto's `Decimal`, which truncates each result toward zero; the rounded-up
//! forms are built on it, and exact products are compared in 256 bits.
use scrypto::prelude::{CheckedDiv, CheckedMul, Decimal, ToPrimitive, I192, I256};
use std::cmp::Ordering;
use vstd::arithmetic::div_mod::{lemma_fundamental_div_mod, lemma_mod_bound};
use vstd::prelude::*;

verus! {

/// The number of attos in one whole unit.
pub const ONE: i128 = 1_000_000_000_000_000_000;

/// One hundred whole units.
pub const HUNDRED: i128 = 100 * ONE;

/// A fixed-point decimal amount, counted in attos.
#[derive(Clone, Copy, Debug, PartialEq, Eq, Structural)]
pub struct Dec {
    pub attos: i128,
}

impl View for Dec {
    type V = int;

    open spec fn view(&self) -> int {
        self.attos as int
    }
}

impl Dec {
    /// The amount of `whole` units.
    pub fn from_units(whole: i64) -> (r: Dec)
        ensures
            r@ == whole * ONE,
    {
        proof {
            assert(-0x8000_0000_0000_0000 * ONE <= whole * ONE <= 0x7fff_ffff_ffff_ffff * ONE)
                by (nonlinear_arith)
                requires
                    -0x8000_0000_0000_0000 <= whole <= 0x7fff_ffff_ffff_ffff,
            ;
        }
        Dec { attos: whole as i128 * ONE }
    }
}

/// Whether a non-negative amount can be held in a `Dec`.
pub open spec fn fits(v: int) -> bool {
    0 <= v <= i128::MAX
}

/// The value of an optional amount.
pub open spec fn amount_of(r: Option<Dec>) -> Option<int> {
    match r {
        Some(d) => Some(d@),
        None => None,
    }
}

/// `a * b` truncated to attos, or `None` when it does not fit.
pub open spec fn fixed_mul(a: int, b: int) -> Option<int> {
    if fits(a * b / (ONE as int)) {
        Some(a * b / (ONE as int))
    } else {
        None
    }
}

/// `a / b` truncated to attos, or `None` when `b` is zero or it does not fit.
pub open spec fn fixed_div(a: int, b: int) -> Option<int> {
    if b == 0 {
        None
    } else if fits(a * (ONE as int) / b) {
        Some(a * (ONE as int) / b)
    } else {
        None
    }
}

/// `a * b` rounded up to attos, or `None` when it does not fit.
pub open spec fn fixed_mul_up(a: int, b: int) -> Option<int> {
    if fits((a * b + ONE - 1) / (ONE as int)) {
        Some((a * b + ONE - 1) / (ONE as int))
    } else {
        None
    }
}

/// `a / b` rounded up to attos, or `None` when `b` is zero or it does not fit.
pub open spec fn fixed_div_up(a: int, b: int) -> Option<int> {
    if b == 0 {
        None
    } else if fits((a * (ONE as int) + b - 1) / b) {
        Some((a * (ONE as int) + b - 1) / b)
    } else {
        None
    }
}

/// Truncating division by a positive `d` rounds down by less than `d`.
pub proof fn lemma_floor(a: int, d: int)
    requires
        d > 0,
    ensures
        (a / d) * d <= a,
        a < (a / d) * d + d,
{
    lemma_fundamental_div_mod(a, d);
    lemma_mod_bound(a, d);
    assert(d * (a / d) == (a / d) * d) by (nonlinear_arith);
}

/// Rounding `x / d` up adds one to rounding it down, unless `d` divides `x`.
proof fn lemma_ceil(x: int, d: int)
    requires
        x >= 0,
        d > 0,
    ensures
        (x / d) * d == x ==> (x + d - 1) / d == x / d,
        (x / d) * d != x ==> (x + d - 1) / d == x / d + 1,
{
    lemma_floor(x, d);
    lemma_floor(x + d - 1, d);
    let q = x / d;
    let c = (x + d - 1) / d;
    assert((q * d == x ==> c == q) && (q * d != x ==> c == q + 1)) by (nonlinear_arith)
        requires
            q * d <= x < q * d + d,
            c * d <= x + d - 1 < c * d + d,
            d > 0,
    ;
}

/// `a * b` rounded up: the truncated product, plus one atto when dividing it
/// back by `b` does not give `a` again.
pub fn mul_up(a: Dec, b: Dec) -> (r: Option<Dec>)
    requires
        a@ >= 0,
        b@ >= 0,
    ensures
        amount_of(r) == fixed_mul_up(a@, b@),
{
    let ghost x = a@ * b@;
    proof {
        assert(x >= 0 && (b@ == 0 ==> x == 0)) by (nonlinear_arith)
            requires
                x == a@ * b@,
                a@ >= 0,
                b@ >= 0,
        ;
        lemma_ceil(x, ONE as int);
        lemma_floor(x, ONE as int);
    }
    let c = decimal_mul(a, b)?;
    if b.attos == 0 {
        return Some(c);
    }
    proof {
        lemma_floor(c@ * (ONE as int), b@);
        let back = c@ * (ONE as int) / b@;
        assert(0 <= back <= a@ && (back == a@ <==> c@ * ONE == x)) by (nonlinear_arith)
            requires
                back * b@ <= c@ * ONE < back * b@ + b@,
                c@ * ONE <= x,
                x == a@ * b@,
                b@ > 0,
                c@ >= 0,
        ;
    }
    let back = match decimal_div(c, b) {
        Some(v) => v,
        None => return None,
    };
    if back.attos == a.attos {
        Some(c)
    } else if c.attos == i128::MAX {
        None
    } else {
        Some(Dec { attos: c.attos + 1 })
    }
}

/// `a / b` rounded up: the truncated quotient, plus one atto when multiplying
/// it back by `b` does not give `a` again.
pub fn div_up(a: Dec, b: Dec) -> (r: Option<Dec>)
    requires
        a@ >= 0,
        b@ >= 0,
    ensures
        amount_of(r) == fixed_div_up(a@, b@),
{
    let ghost x = a@ * (ONE as int);
    if b.attos == 0 {
        return None;
    }
    proof {
        lemma_ceil(x, b@);
        lemma_floor(x, b@);
    }
    let q = decimal_div(a, b)?;
    proof {
        lemma_floor(q@ * b@, ONE as int);
        let back = q@ * b@ / (ONE as int);
        assert(0 <= back <= a@ && (back == a@ <==> q@ * b@ == x)) by (nonlinear_arith)
            requires
                back * ONE <= q@ * b@ < back * ONE + ONE,
                q@ * b@ <= x,
                x == a@ * ONE,
                ONE > 0,
                b@ > 0,
                q@ >= 0,
        ;
    }
    let back = match decimal_mul(q, b) {
        Some(v) => v,
        None => return None,
    };
    if back.attos == a.attos {
        Some(q)
    } else if q.attos == i128::MAX {
        None
    } else {
        Some(Dec { attos: q.attos + 1 })
    }
}

/// Relies on `I256` of scrypto's radix-common: the exact products of two pairs
/// of non-negative `i128`s (below 2^254, so its checked `*` cannot overflow),
/// compared in their numeric order.
#[verifier::external_body]
pub(crate) fn compare_products(a: Dec, b: Dec, c: Dec, d: Dec) -> (r: Ordering)
    requires
        a@ >= 0,
        b@ >= 0,
        c@ >= 0,
        d@ >= 0,
    ensures
        (r == Ordering::Less) == (a@ * b@ < c@ * d@),
        (r == Ordering::Equal) == (a@ * b@ == c@ * d@),
        (r == Ordering::Greater) == (a@ * b@ > c@ * d@),
{
    (I256::from(a.attos) * I256::from(b.attos)).cmp(&(I256::from(c.attos) * I256::from(d.attos)))
}

/// Relies on `Decimal::checked_mul` of scrypto: the exact product of the attos,
/// divided by 10^18 with truncation, computed in 256 bits; `None` only when the
/// result leaves `Decimal`'s range (here narrowed further to `i128`).
#[verifier::external_body]
pub(crate) fn decimal_mul(a: Dec, b: Dec) -> (r: Option<Dec>)
    requires
        a@ >= 0,
        b@ >= 0,
    ensures
        amount_of(r) == fixed_mul(a@, b@),
{
    Decimal::from_attos(I192::from(a.attos))
        .checked_mul(Decimal::from_attos(I192::from(b.attos)))
        .and_then(|c| c.attos().to_i128())
        .map(|attos| Dec { attos })
}

/// Relies on `Decimal::checked_div` of scrypto: the attos of `a` times 10^18,
/// divided by the attos of `b` with truncation, computed in 256 bits; `None`
/// when `b` is zero or the result leaves `Decimal`'s range (here `i128`).
#[verifier::external_body]
pub(crate) fn decimal_div(a: Dec, b: Dec) -> (r: Option<Dec>)
    requires
        a@ >= 0,
        b@ >= 0,
    ensures
        amount_of(r) == fixed_div(a@, b@),
{
    Decimal::from_attos(I192::from(a.attos))
        .checked_div(Decimal::from_attos(I192::from(b.attos)))
        .and_then(|c| c.attos().to_i128())
        .map(|attos| Dec { attos })
}

} // verus!
