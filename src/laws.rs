//! Laws that the pool's operations obey, proved over their models.
use crate::fixed::{fixed_div, fixed_mul, lemma_floor, HUNDRED, ONE};
use crate::pool::PoolModel;
use crate::pricing::{fee_factor, input_for, output_for};
use vstd::prelude::*;

verus! {

/// The fee factor lies in `[0, 1]`, and below one when a fee is charged.
proof fn lemma_fee_factor(fee: int)
    requires
        0 <= fee <= HUNDRED,
    ensures
        0 <= fee_factor(fee) <= ONE,
        fee > 0 ==> fee_factor(fee) < ONE,
{
    let a = (HUNDRED - fee) * (ONE as int);
    let r = fee_factor(fee);
    lemma_floor(a, HUNDRED as int);
    assert(0 <= a <= (HUNDRED as int) * (ONE as int));
    assert(fee > 0 ==> a <= (HUNDRED as int) * (ONE as int) - ONE);
    assert(0 <= r <= ONE && (fee > 0 ==> r < ONE)) by (nonlinear_arith)
        requires
            r * (HUNDRED as int) <= a,
            a < r * (HUNDRED as int) + HUNDRED,
            0 <= a <= (HUNDRED as int) * (ONE as int),
            fee > 0 ==> a <= (HUNDRED as int) * (ONE as int) - ONE,
            HUNDRED == 100 * ONE,
            ONE > 0,
    ;
}

/// The facts about one quote of `output_for` that the laws rest on: the part
/// `rdx` of the input that counts after the fee, and an output `dy` with
/// `dy (x + rdx) <= rdx y`.
proof fn lemma_output_bound(x: int, y: int, fee: int, dx: int)
    requires
        x >= 0,
        y >= 0,
        0 <= fee <= HUNDRED,
        dx >= 0,
        output_for(x, y, fee, dx) is Some,
    ensures
        ({
            let rdx = dx * fee_factor(fee) / (ONE as int);
            let dy = output_for(x, y, fee, dx)->0;
            &&& 0 <= rdx <= dx
            &&& x + rdx > 0
            &&& 0 <= dy
            &&& dy * (x + rdx) <= rdx * y
            &&& rdx * y < dy * (x + rdx) + (x + rdx) + ONE
            &&& dy <= y
            &&& (fee > 0 && dx > 0 ==> rdx < dx)
            &&& (x > 0 && y > 0 ==> dy < y)
        }),
{
    let r = fee_factor(fee);
    lemma_fee_factor(fee);
    let rdx = dx * r / (ONE as int);
    lemma_floor(dx * r, ONE as int);
    assert(0 <= rdx <= dx && (fee > 0 && dx > 0 ==> rdx < dx)) by (nonlinear_arith)
        requires
            rdx * ONE <= dx * r,
            dx * r < rdx * ONE + ONE,
            0 <= r <= ONE,
            fee > 0 ==> r < ONE,
            dx >= 0,
            ONE > 0,
    ;
    let num = rdx * y / (ONE as int);
    lemma_floor(rdx * y, ONE as int);
    let den = x + rdx;
    assert(den != 0);
    let dy = num * (ONE as int) / den;
    lemma_floor(num * (ONE as int), den);
    assert(0 <= num) by (nonlinear_arith)
        requires
            rdx * y < num * ONE + ONE,
            rdx >= 0,
            y >= 0,
            ONE > 0,
    ;
    assert(dy * den <= rdx * y);
    assert(rdx * y < dy * den + den + ONE);
    assert(0 <= dy) by (nonlinear_arith)
        requires
            num * ONE < dy * den + den,
            num >= 0,
            den > 0,
            ONE > 0,
    ;
    assert(dy <= y && (x > 0 && y > 0 ==> dy < y)) by (nonlinear_arith)
        requires
            dy * den <= rdx * y,
            den == x + rdx,
            den > 0,
            x >= 0,
            rdx >= 0,
            y >= 0,
    ;
}

/// A swap never lowers the constant product of the reserves, and raises it
/// when a fee is charged on a non-zero input to a pool with both reserves
/// non-empty.
pub proof fn lemma_swap_keeps_product(m: PoolModel, id: Seq<u8>, dx: int)
    requires
        m.valid(),
        dx >= 0,
        m.swap(id, dx) is Ok,
    ensures
        m.swap(id, dx)->Ok_0.0.product() >= m.product(),
        m.fee > 0 && dx > 0 && m.reserve1 > 0 && m.reserve2 > 0 ==> m.swap(id, dx)->Ok_0.0.product() > m.product(),
{
    let x = m.reserve_of(id);
    let y = m.reserve_of(m.other(id));
    lemma_output_bound(x, y, m.fee, dx);
    let rdx = dx * fee_factor(m.fee) / (ONE as int);
    let dy = output_for(x, y, m.fee, dx)->0;
    let m2 = m.swap(id, dx)->Ok_0.0;
    assert(m.product() == x * y) by (nonlinear_arith)
        requires
            m.product() == m.reserve1 * m.reserve2,
            (x == m.reserve1 && y == m.reserve2) || (x == m.reserve2 && y == m.reserve1),
    ;
    assert(m2.product() == (x + dx) * (y - dy)) by (nonlinear_arith)
        requires
            m2.product() == m2.reserve1 * m2.reserve2,
            (x + dx == m2.reserve1 && y - dy == m2.reserve2) || (x + dx == m2.reserve2 && y - dy == m2.reserve1),
    ;
    assert((x + dx) * (y - dy) >= x * y) by (nonlinear_arith)
        requires
            dy * (x + rdx) <= rdx * y,
            0 <= rdx <= dx,
            dy <= y,
    ;
    if m.fee > 0 && dx > 0 && m.reserve1 > 0 && m.reserve2 > 0 {
        assert((x + dx) * (y - dy) > x * y) by (nonlinear_arith)
            requires
                dy * (x + rdx) <= rdx * y,
                0 <= rdx < dx,
                dy < y,
        ;
    }
}

/// The exact-input swap, which is a swap or nothing, never lowers the
/// constant product either.
pub proof fn lemma_swap_exact_input_keeps_product(m: PoolModel, id: Seq<u8>, dx: int, min_out: int)
    requires
        m.valid(),
        dx >= 0,
        m.swap_exact_input(id, dx, min_out) is Ok,
    ensures
        m.swap_exact_input(id, dx, min_out)->Ok_0.0.product() >= m.product(),
        m.fee > 0 && dx > 0 && m.reserve1 > 0 && m.reserve2 > 0 ==> m.swap_exact_input(id, dx, min_out)->Ok_0.0.product()
            > m.product(),
{
    lemma_swap_keeps_product(m, id, dx);
}

/// Rounding `x / d` up lands in `[x, x + d)` once multiplied back by `d`.
proof fn lemma_ceil_bounds(x: int, d: int)
    requires
        x >= 0,
        d > 0,
    ensures
        x <= ((x + d - 1) / d) * d,
        ((x + d - 1) / d) * d < x + d,
{
    lemma_floor(x + d - 1, d);
}

/// An exact-output swap never lowers the constant product of the reserves,
/// and raises it when a fee is charged on a non-zero output bought with a
/// non-empty reserve of the input token.
pub proof fn lemma_swap_exact_output_keeps_product(m: PoolModel, id: Seq<u8>, amount: int, want: int)
    requires
        m.valid(),
        amount >= 0,
        want >= 0,
        m.swap_exact_output(id, amount, want) is Ok,
    ensures
        m.swap_exact_output(id, amount, want)->Ok_0.0.product() >= m.product(),
        m.fee > 0 && want > 0 && m.reserve_of(id) > 0 ==> m.swap_exact_output(id, amount, want)->Ok_0.0.product()
            > m.product(),
{
    let x = m.reserve_of(id);
    let y = m.reserve_of(m.other(id));
    assert(m.other(m.other(id)) == id);
    lemma_fee_factor(m.fee);
    let r = fee_factor(m.fee);
    let num = (want * x + ONE - 1) / (ONE as int);
    let den = r * (y - want) / (ONE as int);
    let need = input_for(x, y, m.fee, want)->0;
    assert(want * x >= 0) by (nonlinear_arith)
        requires
            want >= 0,
            x >= 0,
    ;
    lemma_ceil_bounds(want * x, ONE as int);
    lemma_floor(r * (y - want), ONE as int);
    assert(den != 0);
    assert(0 <= den <= y - want && (m.fee > 0 ==> den < y - want)) by (nonlinear_arith)
        requires
            den * ONE <= r * (y - want),
            r * (y - want) < den * ONE + ONE,
            0 <= r <= ONE,
            m.fee > 0 ==> r < ONE,
            y - want > 0,
            ONE > 0,
    ;
    assert(num >= 0) by (nonlinear_arith)
        requires
            want * x <= num * ONE,
            want * x >= 0,
            ONE > 0,
    ;
    lemma_ceil_bounds(num * (ONE as int), den);
    assert(need * den >= want * x);
    let m2 = m.swap_exact_output(id, amount, want)->Ok_0.0;
    assert(m.product() == x * y) by (nonlinear_arith)
        requires
            m.product() == m.reserve1 * m.reserve2,
            (x == m.reserve1 && y == m.reserve2) || (x == m.reserve2 && y == m.reserve1),
    ;
    assert(m2.product() == (x + need) * (y - want)) by (nonlinear_arith)
        requires
            m2.product() == m2.reserve1 * m2.reserve2,
            (x + need == m2.reserve1 && y - want == m2.reserve2) || (x + need == m2.reserve2 && y - want
                == m2.reserve1),
    ;
    assert((x + need) * (y - want) >= x * y) by (nonlinear_arith)
        requires
            need * den >= want * x,
            0 <= den <= y - want,
            need >= 0,
    ;
    if m.fee > 0 && want > 0 && x > 0 {
        assert(want * x > 0) by (nonlinear_arith)
            requires
                want > 0,
                x > 0,
        ;
        assert((x + need) * (y - want) > x * y) by (nonlinear_arith)
            requires
                need * den >= want * x,
                want * x > 0,
                0 <= den < y - want,
                need >= 0,
        ;
    }
}

/// Quoting the input for the output that `a` buys, at the same reserves,
/// never asks for more than `a` beyond rounding: with `d` the fee-adjusted
/// reserve left after that output, `back * d < a * (d + 1) + d + ONE`.
pub proof fn lemma_input_for_output(m: PoolModel, id: Seq<u8>, a: int)
    requires
        m.valid(),
        a >= 0,
        m.output_quote(id, a) is Ok,
        m.input_quote(m.other(id), m.output_quote(id, a)->Ok_0) is Ok,
    ensures
        ({
            let dy = m.output_quote(id, a)->Ok_0;
            let back = m.input_quote(m.other(id), dy)->Ok_0;
            let d = fee_factor(m.fee) * (m.reserve_of(m.other(id)) - dy) / (ONE as int);
            back * d < a * (d + 1) + d + ONE
        }),
{
    let x = m.reserve_of(id);
    let y = m.reserve_of(m.other(id));
    assert(m.other(m.other(id)) == id);
    lemma_output_bound(x, y, m.fee, a);
    lemma_fee_factor(m.fee);
    let r = fee_factor(m.fee);
    let rdx = a * r / (ONE as int);
    let dy = output_for(x, y, m.fee, a)->0;
    let back = input_for(x, y, m.fee, dy)->0;
    let p = (dy * x + ONE - 1) / (ONE as int);
    let d = r * (y - dy) / (ONE as int);
    assert(dy * x >= 0) by (nonlinear_arith)
        requires
            dy >= 0,
            x >= 0,
    ;
    lemma_floor(a * r, ONE as int);
    lemma_ceil_bounds(dy * x, ONE as int);
    lemma_floor(r * (y - dy), ONE as int);
    assert(d >= 0) by (nonlinear_arith)
        requires
            r * (y - dy) < d * ONE + ONE,
            r >= 0,
            y - dy >= 0,
            ONE > 0,
    ;
    assert(d != 0);
    assert(p >= 0) by (nonlinear_arith)
        requires
            dy * x <= p * ONE,
            dy * x >= 0,
            ONE > 0,
    ;
    lemma_ceil_bounds(p * (ONE as int), d);
    assert(back * d < p * ONE + d);
    assert(dy * x <= rdx * (y - dy)) by (nonlinear_arith)
        requires
            dy * (x + rdx) <= rdx * y,
    ;
    assert(rdx * (y - dy) * ONE <= a * r * (y - dy)) by (nonlinear_arith)
        requires
            rdx * ONE <= a * r,
            y - dy >= 0,
    ;
    assert(a * r * (y - dy) <= a * (d + 1) * ONE) by (nonlinear_arith)
        requires
            r * (y - dy) < d * ONE + ONE,
            a >= 0,
    ;
    assert(rdx * (y - dy) <= a * (d + 1)) by (nonlinear_arith)
        requires
            rdx * (y - dy) * ONE <= a * r * (y - dy),
            a * r * (y - dy) <= a * (d + 1) * ONE,
            ONE > 0,
    ;
    assert(back * d < a * (d + 1) + d + ONE);
}

/// When ownership tokens are already outstanding, the tokens minted for a
/// deposit stand to the outstanding supply as the amount added to the first
/// reserve stands to that reserve, up to rounding:
/// `minted * reserve1 <= added * supply < minted * reserve1 + reserve1 + ONE`.
pub proof fn lemma_minted_in_proportion(m: PoolModel, id_a: Seq<u8>, a: int, id_b: Seq<u8>, b: int)
    requires
        m.valid(),
        a >= 0,
        b >= 0,
        m.supply > 0,
        m.add_liquidity(id_a, a, id_b, b) is Ok,
    ensures
        ({
            let (m2, rest1, rest2, t) = m.add_liquidity(id_a, a, id_b, b)->Ok_0;
            let added = m2.reserve1 - m.reserve1;
            &&& m.reserve1 > 0
            &&& added >= 0
            &&& m2.reserve2 - m.reserve2 >= 0
            &&& t >= 0
            &&& m2.supply == m.supply + t
            &&& t * m.reserve1 <= added * m.supply
            &&& added * m.supply < t * m.reserve1 + m.reserve1 + ONE
        }),
{
    let (m2, rest1, rest2, t) = m.add_liquidity(id_a, a, id_b, b)->Ok_0;
    let a1 = m2.reserve1 - m.reserve1;
    let s = m.supply;
    let p = a1 * s / (ONE as int);
    assert(fixed_mul(a1, s) == Some(p));
    assert(fixed_div(p, m.reserve1) == Some(t));
    lemma_floor(a1 * s, ONE as int);
    lemma_floor(p * (ONE as int), m.reserve1);
    assert(t * m.reserve1 <= a1 * s);
    assert(a1 * s < t * m.reserve1 + m.reserve1 + ONE);
}

/// Redeeming at once the ownership tokens that a deposit minted pays out no
/// more of the first token than the deposit added, and no more of the second
/// when the deposit added at least the pool's ratio of it. Of the first token
/// it loses less than `(reserve1 + ONE) / supply + new reserve1 / ONE + 1`
/// attos to rounding, with `supply` the supply after the deposit.
pub proof fn lemma_liquidity_round_trip(m: PoolModel, id_a: Seq<u8>, a: int, id_b: Seq<u8>, b: int)
    requires
        m.valid(),
        a >= 0,
        b >= 0,
        m.supply > 0,
        m.add_liquidity(id_a, a, id_b, b) is Ok,
        m.add_liquidity(id_a, a, id_b, b)->Ok_0.0.remove_liquidity(m.tracking, m.add_liquidity(id_a, a, id_b, b)->Ok_0.3)
            is Ok,
    ensures
        ({
            let (m2, rest1, rest2, t) = m.add_liquidity(id_a, a, id_b, b)->Ok_0;
            let (m3, w1, w2) = m2.remove_liquidity(m.tracking, t)->Ok_0;
            let a1 = m2.reserve1 - m.reserve1;
            let a2 = m2.reserve2 - m.reserve2;
            &&& w1 <= a1
            &&& (a1 - w1) * m2.supply * ONE < (m.reserve1 + ONE) * ONE + m2.supply * ONE + m2.reserve1 * m2.supply
            &&& (a2 * m.reserve1 >= a1 * m.reserve2 ==> w2 <= a2)
        }),
{
    lemma_minted_in_proportion(m, id_a, a, id_b, b);
    let (m2, rest1, rest2, t) = m.add_liquidity(id_a, a, id_b, b)->Ok_0;
    let (m3, w1, w2) = m2.remove_liquidity(m.tracking, t)->Ok_0;
    let a1 = m2.reserve1 - m.reserve1;
    let a2 = m2.reserve2 - m.reserve2;
    let s = m.supply;
    let s2 = m2.supply;
    let share = t * (ONE as int) / s2;
    assert(fixed_div(t, s2) == Some(share));
    lemma_floor(t * (ONE as int), s2);
    lemma_floor(m2.reserve1 * share, ONE as int);
    lemma_floor(m2.reserve2 * share, ONE as int);
    assert(w1 == m2.reserve1 * share / (ONE as int));
    assert(w2 == m2.reserve2 * share / (ONE as int));
    assert(share >= 0) by (nonlinear_arith)
        requires
            t * ONE < share * s2 + s2,
            t >= 0,
            s2 > 0,
    ;
    assert(w1 * s2 <= m2.reserve1 * t) by (nonlinear_arith)
        requires
            w1 * ONE <= m2.reserve1 * share,
            share * s2 <= t * ONE,
            m2.reserve1 >= 0,
            s2 > 0,
            ONE > 0,
    ;
    assert(w2 * s2 <= m2.reserve2 * t) by (nonlinear_arith)
        requires
            w2 * ONE <= m2.reserve2 * share,
            share * s2 <= t * ONE,
            m2.reserve2 >= 0,
            s2 > 0,
            ONE > 0,
    ;
    assert(w1 <= a1) by (nonlinear_arith)
        requires
            w1 * s2 <= m2.reserve1 * t,
            m2.reserve1 == m.reserve1 + a1,
            s2 == s + t,
            t * m.reserve1 <= a1 * s,
            t >= 0,
            a1 >= 0,
            s2 > 0,
    ;
    let big_m = m2.reserve1;
    assert(big_m * t * ONE < w1 * ONE * s2 + ONE * s2 + big_m * s2) by (nonlinear_arith)
        requires
            big_m * share < w1 * ONE + ONE,
            t * ONE < share * s2 + s2,
            big_m >= 0,
            s2 > 0,
    ;
    assert((a1 * s2 - m.reserve1 - ONE) * ONE < big_m * t * ONE) by (nonlinear_arith)
        requires
            a1 * s < t * m.reserve1 + m.reserve1 + ONE,
            big_m == m.reserve1 + a1,
            s2 == s + t,
            ONE > 0,
    ;
    assert((a1 - w1) * s2 * ONE < (m.reserve1 + ONE) * ONE + s2 * ONE + big_m * s2) by (nonlinear_arith)
        requires
            (a1 * s2 - m.reserve1 - ONE) * ONE < big_m * t * ONE,
            big_m * t * ONE < w1 * ONE * s2 + ONE * s2 + big_m * s2,
    ;
    if a2 * m.reserve1 >= a1 * m.reserve2 {
        assert(m.reserve2 * t <= a2 * s) by (nonlinear_arith)
            requires
                t * m.reserve1 <= a1 * s,
                a2 * m.reserve1 >= a1 * m.reserve2,
                m.reserve1 > 0,
                m.reserve2 >= 0,
                s > 0,
        ;
        assert(w2 <= a2) by (nonlinear_arith)
            requires
                w2 * s2 <= m2.reserve2 * t,
                m2.reserve2 == m.reserve2 + a2,
                s2 == s + t,
                m.reserve2 * t <= a2 * s,
                t >= 0,
                a2 >= 0,
                s2 > 0,
        ;
    }
}

/// A higher fee never buys more than a lower one, up to one atto of
/// rounding, when the input reserve holds at least one whole unit.
pub proof fn lemma_fee_monotone(x: int, y: int, dx: int, low: int, high: int)
    requires
        x >= ONE,
        y >= 0,
        dx >= 0,
        0 <= low <= high <= HUNDRED,
        output_for(x, y, low, dx) is Some,
        output_for(x, y, high, dx) is Some,
    ensures
        output_for(x, y, high, dx)->0 <= output_for(x, y, low, dx)->0 + 1,
{
    lemma_output_bound(x, y, low, dx);
    lemma_output_bound(x, y, high, dx);
    lemma_fee_factor(low);
    lemma_fee_factor(high);
    vstd::arithmetic::div_mod::lemma_div_is_ordered(
        (HUNDRED - high) * (ONE as int),
        (HUNDRED - low) * (ONE as int),
        HUNDRED as int,
    );
    let r1 = fee_factor(low);
    let r2 = fee_factor(high);
    assert(dx * r2 <= dx * r1) by (nonlinear_arith)
        requires
            r2 <= r1,
            dx >= 0,
    ;
    vstd::arithmetic::div_mod::lemma_div_is_ordered(dx * r2, dx * r1, ONE as int);
    let u1 = dx * r1 / (ONE as int);
    let u2 = dx * r2 / (ONE as int);
    let dy1 = output_for(x, y, low, dx)->0;
    let dy2 = output_for(x, y, high, dx)->0;
    assert(dy2 * (x + u1) <= u1 * y) by (nonlinear_arith)
        requires
            dy2 * (x + u2) <= u2 * y,
            u2 <= u1,
            0 <= dy2 <= y,
    ;
    assert(dy2 <= dy1 + 1) by (nonlinear_arith)
        requires
            dy2 * (x + u1) <= u1 * y,
            u1 * y < dy1 * (x + u1) + (x + u1) + ONE,
            x + u1 >= ONE,
    ;
}

} // verus!
