//! Scaling in whole numbers.
//!
//! A coordinate is scaled by a ratio as double-precision arithmetic does it: the
//! ratio is rounded to 53 bits, the product is rounded to 53 bits again, and the
//! result goes to the nearest whole number, away from zero on a tie. A double is
//! held as a whole number and the power of two that divides it.

use vstd::arithmetic::div_mod::*;
use vstd::arithmetic::mul::*;
use vstd::arithmetic::power2::*;
use vstd::prelude::*;

use crate::input::saturated;

verus! {

/// 2 to the power of 52: the least number of 53 bits.
pub const LOW_53: u128 = 0x10_0000_0000_0000;

/// 2 to the power of 53: the first number of more than 53 bits.
pub const TOP_53: u128 = 0x20_0000_0000_0000;

/// The whole number nearest to `n / d`, and the even one of two.
pub open spec fn half_even(n: nat, d: nat) -> nat {
    let q = n / d;
    let r = n % d;
    if 2 * r > d || (2 * r == d && q % 2 == 1) {
        q + 1
    } else {
        q
    }
}

/// `top` doubled until it reaches `floor`, with `unit` doubled along.
pub open spec fn lifted(top: nat, unit: nat, floor: nat, times: nat) -> (nat, nat)
    decreases times,
{
    if times == 0 || top >= floor {
        (top, unit)
    } else {
        lifted(2 * top, 2 * unit, floor, (times - 1) as nat)
    }
}

/// `p / l` rounded to 53 bits, as a whole number over a power of two.
pub open spec fn ratio(p: nat, l: nat) -> (nat, nat) {
    let (top, unit) = lifted(p, 1, LOW_53 as nat * l, 84);
    (half_even(top, l), unit)
}

/// `unit` doubled until `n` has at most 53 bits in it.
pub open spec fn unit_of(n: nat, unit: nat, times: nat) -> nat
    decreases times,
{
    if times == 0 || n < TOP_53 as nat * unit {
        unit
    } else {
        unit_of(n, 2 * unit, (times - 1) as nat)
    }
}

/// `n` rounded to 53 bits.
pub open spec fn to_53_bits(n: nat) -> nat {
    let unit = unit_of(n, 1, 40);
    half_even(n, unit) * unit
}

/// The whole number nearest to `n / d`, and the larger one of two.
pub open spec fn half_up(n: nat, d: nat) -> nat {
    (2 * n + d) / (2 * d)
}

/// A distance scaled by `p / l`.
pub open spec fn scaled_distance(v: nat, p: nat, l: nat) -> nat {
    if p == 0 {
        0
    } else {
        let (m, unit) = ratio(p, l);
        half_up(to_53_bits(v * m), unit)
    }
}

/// A coordinate scaled by `pixels / logical`, as an `i32`.
pub open spec fn scaled_spec(start: i32, pixels: u32, logical: u32) -> i32 {
    let l = if logical == 0 {
        1nat
    } else {
        logical as nat
    };
    if start >= 0 {
        saturated(scaled_distance(start as nat, pixels as nat, l) as int)
    } else {
        saturated(-(scaled_distance((-start) as nat, pixels as nat, l) as int))
    }
}

fn nearest_even(n: u128, d: u128) -> (r: u128)
    requires
        0 < d <= 0x1_0000_0000_0000,
        n <= 0x1000_0000_0000_0000_0000_0000_0000,
    ensures
        r == half_even(n as nat, d as nat),
{
    let q: u128 = n / d;
    let rest: u128 = n % d;
    proof {
        assert(n / d <= n) by (nonlinear_arith)
            requires
                0 < d,
                0 <= n,
        ;
    }
    if 2 * rest > d || (2 * rest == d && q % 2 == 1) {
        q + 1
    } else {
        q
    }
}

/// The ratio of two sizes. The number stays under 54 bits, and the power of two
/// under 86.
fn ratio_of(p: u32, l: u32) -> (r: (u128, u128))
    requires
        p > 0,
        l > 0,
    ensures
        (r.0 as nat, r.1 as nat) == ratio(p as nat, l as nat),
        r.0 <= TOP_53,
        0 < r.1 <= 0x20_0000_0000_0000_0000_0000,
{
    let floor: u128 = LOW_53 * l as u128;
    let mut top: u128 = p as u128;
    let mut unit: u128 = 1;
    let mut times: u32 = 84;
    while times > 0 && top < floor
        invariant
            p > 0,
            l > 0,
            floor == LOW_53 * l,
            times <= 84,
            0 < unit <= top,
            top <= 2 * floor,
            top < 2 * floor,
            unit <= 0x20_0000_0000_0000_0000_0000,
            lifted(p as nat, 1, floor as nat, 84) == lifted(
                top as nat,
                unit as nat,
                floor as nat,
                times as nat,
            ),
        decreases times,
    {
        top = top * 2;
        unit = unit * 2;
        times = times - 1;
    }
    let m: u128 = nearest_even(top, l as u128);
    proof {
        assert(top / (l as u128) < TOP_53) by (nonlinear_arith)
            requires
                top < 2 * floor,
                floor == LOW_53 * l,
                0 < l,
                TOP_53 == 2 * LOW_53,
        ;
    }
    (m, unit)
}

/// A number rounded to 53 bits.
fn rounded(n: u128) -> (r: u128)
    requires
        n <= 0x10_0000_0000_0000_0000_0000,
    ensures
        r == to_53_bits(n as nat),
        r <= n + 0x1_0000_0000_0000,
{
    let mut unit: u128 = 1;
    let mut times: u32 = 40;
    while times > 0 && n >= TOP_53 * unit
        invariant
            n <= 0x10_0000_0000_0000_0000_0000,
            times <= 40,
            0 < unit <= 0x1_0000_0000_0000,
            unit_of(n as nat, 1, 40) == unit_of(n as nat, unit as nat, times as nat),
        decreases times,
    {
        unit = unit * 2;
        times = times - 1;
    }
    let q: u128 = nearest_even(n, unit);
    proof {
        assert(q * unit <= n + unit) by (nonlinear_arith)
            requires
                q <= n / unit + 1,
                0 < unit,
        ;
        assert(0 <= q * unit) by (nonlinear_arith)
            requires
                0 <= q,
                0 < unit,
        ;
    }
    q * unit
}

fn distance(v: u64, p: u32, l: u32) -> (r: u128)
    requires
        v <= 0x8000_0000,
        l > 0,
    ensures
        r == scaled_distance(v as nat, p as nat, l as nat),
        r <= 0x1_0000_0000_0000_0000_0000_0000,
{
    if p == 0 {
        return 0;
    }
    let (m, unit) = ratio_of(p, l);
    proof {
        assert(v * m <= 0x8000_0000 * TOP_53) by (nonlinear_arith)
            requires
                v <= 0x8000_0000,
                m <= TOP_53,
        ;
        assert(0 <= v * m) by (nonlinear_arith)
            requires
                0 <= v,
                0 <= m,
        ;
    }
    let n: u128 = rounded(v as u128 * m);
    let d: u128 = 2 * unit;
    let sum: u128 = 2 * n + unit;
    proof {
        assert(sum / d <= sum) by (nonlinear_arith)
            requires
                0 < d,
                0 <= sum,
        ;
    }
    sum / d
}

/// A coordinate scaled by `pixels / logical`.
pub fn scaled_start(start: i32, pixels: u32, logical: u32) -> (r: i32)
    ensures
        r == scaled_spec(start, pixels, logical),
{
    let l: u32 = if logical == 0 {
        1
    } else {
        logical
    };
    if start >= 0 {
        let v: u128 = distance(start as u64, pixels, l);
        if v > i32::MAX as u128 {
            i32::MAX
        } else {
            v as i32
        }
    } else {
        let v: u128 = distance((-(start as i64)) as u64, pixels, l);
        if v > 0x8000_0000 {
            i32::MIN
        } else {
            (-(v as i64)) as i32
        }
    }
}

/// The whole number that a fraction is rounded to is nearest to it; of two that are as
/// near it is the even one.
pub proof fn half_even_is_the_nearest(n: nat, d: nat)
    requires
        d > 0,
    ensures
        2 * (n - half_even(n, d) * d) <= d,
        2 * (half_even(n, d) * d - n) <= d,
        2 * (n - half_even(n, d) * d) == d || 2 * (half_even(n, d) * d - n) == d ==> half_even(
            n,
            d,
        ) % 2 == 0,
{
    let q = n / d;
    lemma_fundamental_div_mod(n as int, d as int);
    lemma_mul_is_commutative(q as int, d as int);
    assert((q + 1) * d == q * d + d) by (nonlinear_arith);
}

/// The whole number that a fraction is rounded to is nearest to it; of two that are as
/// near it is the larger one.
pub proof fn half_up_is_the_nearest(n: nat, d: nat)
    requires
        d > 0,
    ensures
        2 * (n - half_up(n, d) * d) < d,
        2 * (half_up(n, d) * d - n) <= d,
{
    let q = half_up(n, d);
    lemma_fundamental_div_mod((2 * n + d) as int, (2 * d) as int);
    assert((2 * d) * q == 2 * (q * d)) by (nonlinear_arith);
}

/// What has at most 53 bits is not rounded.
pub proof fn short_numbers_are_exact(n: nat)
    requires
        n < 9007199254740992,
    ensures
        to_53_bits(n) == n,
{
    assert(unit_of(n, 1, 40) == 1);
    assert(half_even(n, 1) == n) by {
        lemma_fundamental_div_mod(n as int, 1);
    }
}

proof fn low_53_is_a_power()
    ensures
        pow2(52) == LOW_53,
{
    lemma2_to64();
    lemma_pow2_adds(20, 32);
}

proof fn equal_sizes_have_ratio_one(l: nat, top: nat, unit: nat, done: nat)
    requires
        l > 0,
        done <= 52,
        unit == pow2(done),
        top == unit * l,
    ensures
        lifted(top, unit, LOW_53 as nat * l, (84 - done) as nat) == (
            (LOW_53 as nat * l) as nat,
            LOW_53 as nat,
        ),
    decreases 52 - done,
{
    low_53_is_a_power();
    if done < 52 {
        lemma_pow2_strictly_increases(done, 52);
        lemma_pow2_unfold(done + 1);
        assert(top < LOW_53 as nat * l) by (nonlinear_arith)
            requires
                top == unit * l,
                unit < LOW_53,
                l > 0,
        ;
        assert(2 * top == (2 * unit) * l) by (nonlinear_arith)
            requires
                top == unit * l,
        ;
        equal_sizes_have_ratio_one(l, 2 * top, 2 * unit, done + 1);
    }
}

proof fn multiples_are_exact(v: nat, unit: nat, done: nat)
    requires
        v <= 0x8000_0000,
        done <= 40,
        unit == pow2(done),
        unit <= LOW_53,
    ensures
        ({
            let u = unit_of(v * LOW_53 as nat, unit, (40 - done) as nat);
            u > 0 && (v * LOW_53 as nat) % u == 0
        }),
    decreases 40 - done,
{
    let n = v * LOW_53 as nat;
    low_53_is_a_power();
    lemma_pow2_pos(done);
    assert(n % unit == 0) by {
        lemma_pow2_adds(done, (52 - done) as nat);
        let k = pow2((52 - done) as nat);
        assert(n == (v * k) * unit) by (nonlinear_arith)
            requires
                n == v * LOW_53,
                LOW_53 == unit * k,
        ;
        lemma_mod_multiples_basic((v * k) as int, unit as int);
    }
    if done < 40 && n >= TOP_53 as nat * unit {
        lemma_pow2_unfold(done + 1);
        lemma_pow2_strictly_increases(done + 1, 52);
        multiples_are_exact(v, 2 * unit, done + 1);
    }
}

/// A size that is as many pixels as it was leaves every coordinate where it is, a size of
/// no pixels brings it to 0, and a logical size of 0 counts as 1.
pub proof fn same_size_scales_nothing(start: i32, size: u32)
    requires
        size > 0,
    ensures
        scaled_spec(start, size, size) == start,
        scaled_spec(start, 0, size) == 0,
        scaled_spec(start, size, 0) == scaled_spec(start, size, 1),
{
    let l = size as nat;
    let v = if start >= 0 {
        start as nat
    } else {
        (-start) as nat
    };
    let low = LOW_53 as nat;
    lemma2_to64();
    assert(1 * l == l);
    equal_sizes_have_ratio_one(l, l, 1, 0);
    half_even_of_multiple(low, l);
    assert(ratio(l, l) == (low, low));
    multiples_are_exact(v, 1, 0);
    let n = v * low;
    let u = unit_of(n, 1, 40);
    lemma_fundamental_div_mod(n as int, u as int);
    lemma_mul_is_commutative(u as int, (n / u) as int);
    assert(half_even(n, u) == n / u);
    assert(to_53_bits(n) == n);
    half_up_is_the_nearest(n, low);
    let h = half_up(n, low);
    assert(h == v) by (nonlinear_arith)
        requires
            2 * (n - h * low) < low,
            2 * (h * low - n) <= low,
            n == v * low,
            low > 0,
    ;
}

proof fn half_even_of_multiple(m: nat, d: nat)
    requires
        d > 0,
    ensures
        half_even(m * d, d) == m,
{
    lemma_div_multiples_vanish(m as int, d as int);
    lemma_mod_multiples_basic(m as int, d as int);
    lemma_mul_is_commutative(m as int, d as int);
}

/// Coordinates on the two sides of the origin are scaled alike.
pub proof fn scaling_is_symmetric(start: i32, pixels: u32, logical: u32)
    requires
        start > 0,
        scaled_spec(start, pixels, logical) < i32::MAX,
    ensures
        scaled_spec((-start) as i32, pixels, logical) == -scaled_spec(start, pixels, logical),
        scaled_spec(0, pixels, logical) == 0,
{
    let l = if logical == 0 {
        1nat
    } else {
        logical as nat
    };
    if pixels > 0 {
        let (m, unit) = ratio(pixels as nat, l);
        assert(0 * m == 0);
        short_numbers_are_exact(0);
        lifted_keeps_unit(pixels as nat, 1, (LOW_53 as nat * l) as nat, 84);
        assert(half_up(0, unit) == 0) by {
            lemma_basic_div(unit as int, (2 * unit) as int);
        }
    }
}

proof fn lifted_keeps_unit(top: nat, unit: nat, floor: nat, times: nat)
    requires
        unit > 0,
    ensures
        lifted(top, unit, floor, times).1 > 0,
    decreases times,
{
    if times > 0 && top < floor {
        lifted_keeps_unit(2 * top, 2 * unit, floor, (times - 1) as nat);
    }
}

/// Whether a number is another one rounded to 53 bits: a multiple of a power of two, which
/// is 1 where the number has no more bits, at most half of it away, and of two that are as
/// near the one with the even multiple.
pub open spec fn rounds_to(n: nat, x: nat, k: nat) -> bool {
    let unit = pow2(k);
    &&& k == 0 || pow2(52 + k) <= n
    &&& n < pow2(53 + k)
    &&& exists|a: nat| x == #[trigger] (a * unit) && (2 * (x - n) == unit || 2 * (n - x) == unit
        ==> a % 2 == 0)
    &&& 2 * (x - n) <= unit
    &&& 2 * (n - x) <= unit
}

proof fn unit_is_a_power(n: nat, unit: nat, k: nat, times: nat) -> (j: nat)
    requires
        unit == pow2(k),
        times + k == 40,
        k == 0 || pow2(52 + k) <= n,
        n < pow2(93),
    ensures
        unit_of(n, unit, times) == pow2(j),
        j == 0 || pow2(52 + j) <= n,
        n < pow2(53 + j),
    decreases times,
{
    low_53_is_a_power();
    lemma_pow2_unfold(53);
    lemma_pow2_adds(53, k);
    if times == 0 || n < TOP_53 as nat * unit {
        k
    } else {
        lemma_pow2_unfold(k + 1);
        assert(52 + (k + 1) == 53 + k);
        unit_is_a_power(n, 2 * unit, k + 1, (times - 1) as nat)
    }
}

/// A number is rounded to 53 bits.
pub proof fn numbers_are_rounded(n: nat) -> (k: nat)
    requires
        n < pow2(93),
    ensures
        rounds_to(n, to_53_bits(n), k),
{
    lemma2_to64();
    let k = unit_is_a_power(n, 1, 0, 40);
    lemma_pow2_pos(k);
    let unit = pow2(k);
    half_even_is_the_nearest(n, unit);
    let a = half_even(n, unit);
    assert(to_53_bits(n) == a * unit);
    k
}

proof fn lifted_by_a_power(p: nat, l: nat, top: nat, unit: nat, e: nat, times: nat) -> (j: nat)
    requires
        0 < p < 0x1_0000_0000,
        0 < l < 0x1_0000_0000,
        unit == pow2(e),
        top == p * unit,
        times + e == 84,
        top < 2 * (LOW_53 as nat * l),
    ensures
        lifted(top, unit, LOW_53 as nat * l, times) == ((p * pow2(j)) as nat, pow2(j)),
        LOW_53 as nat * l <= p * pow2(j) < 2 * (LOW_53 as nat * l),
    decreases times,
{
    let floor = LOW_53 as nat * l;
    if top >= floor {
        e
    } else if times == 0 {
        lemma2_to64();
        low_53_is_a_power();
        lemma_pow2_adds(52, 32);
        assert(top >= floor) by (nonlinear_arith)
            requires
                top == p * unit,
                unit == 0x1_0000_0000 * LOW_53,
                floor == LOW_53 * l,
                l < 0x1_0000_0000,
                p >= 1,
        ;
        e
    } else {
        lemma_pow2_unfold(e + 1);
        assert(2 * top == p * (2 * unit)) by (nonlinear_arith)
            requires
                top == p * unit,
        ;
        lifted_by_a_power(p, l, 2 * top, 2 * unit, e + 1, (times - 1) as nat)
    }
}

/// A ratio is a number of 53 bits over a power of two, at most half a bit away from what it
/// stands for, and of two that are as near the even one.
pub proof fn ratios_are_rounded(p: nat, l: nat) -> (e: nat)
    requires
        0 < p < 0x1_0000_0000,
        0 < l < 0x1_0000_0000,
    ensures
        ({
            let (m, unit) = ratio(p, l);
            &&& unit == pow2(e)
            &&& 4503599627370496 <= m <= 9007199254740992
            &&& 2 * (m * l - p * unit) <= l
            &&& 2 * (p * unit - m * l) <= l
            &&& 2 * (m * l - p * unit) == l || 2 * (p * unit - m * l) == l ==> m % 2 == 0
        }),
{
    lemma2_to64();
    assert(p * 1 == p);
    assert(p < 2 * (LOW_53 as nat * l)) by (nonlinear_arith)
        requires
            p < 0x1_0000_0000,
            l > 0,
            LOW_53 == 0x10_0000_0000_0000,
    ;
    let e = lifted_by_a_power(p, l, p, 1, 0, 84);
    let top = (p * pow2(e)) as nat;
    half_even_is_the_nearest(top, l);
    let m = half_even(top, l);
    assert(4503599627370496 <= m <= 9007199254740992) by (nonlinear_arith)
        requires
            2 * (top - m * l) <= l,
            2 * (m * l - top) <= l,
            4503599627370496 * l <= top < 2 * (4503599627370496 * l),
            l > 0,
    ;
    e
}

/// A coordinate is scaled in three steps, as doubles are: by the ratio that is rounded, to
/// a product that is rounded, and to the whole number nearest to it, which is the one
/// farther from 0 where two are as near. It keeps its sign.
pub proof fn scaled_in_three_steps(start: i32, pixels: u32, logical: u32)
    requires
        start >= 0,
        pixels > 0,
        logical > 0,
        scaled_spec(start, pixels, logical) < i32::MAX,
    ensures
        ({
            let (m, unit) = ratio(pixels as nat, logical as nat);
            let x = to_53_bits(start as nat * m);
            let r = scaled_spec(start, pixels, logical);
            &&& 2 * (x - r * unit) < unit
            &&& 2 * (r * unit - x) <= unit
        }),
        scaled_spec((-start) as i32, pixels, logical) == -scaled_spec(start, pixels, logical),
{
    let (m, unit) = ratio(pixels as nat, logical as nat);
    lifted_keeps_unit(pixels as nat, 1, (LOW_53 as nat * logical as nat) as nat, 84);
    half_up_is_the_nearest(to_53_bits(start as nat * m), unit);
    if start > 0 {
        scaling_is_symmetric(start, pixels, logical);
    } else {
        scaling_is_symmetric_at_zero(pixels, logical);
    }
}

proof fn scaling_is_symmetric_at_zero(pixels: u32, logical: u32)
    requires
        pixels > 0,
        logical > 0,
    ensures
        scaled_spec(0, pixels, logical) == 0,
{
    let (m, unit) = ratio(pixels as nat, logical as nat);
    assert(0 * m == 0);
    short_numbers_are_exact(0);
    lifted_keeps_unit(pixels as nat, 1, (LOW_53 as nat * logical as nat) as nat, 84);
    assert(half_up(0, unit) == 0) by {
        lemma_basic_div(unit as int, (2 * unit) as int);
    }
}

} // verus!
