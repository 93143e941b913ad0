//! Double-precision arithmetic on integers.
//!
//! A double holds 53 binary digits. The functions here say in integers what
//! the nearest double to an integer is, and what the nearest doubles to a
//! quotient, a square root and a product are, so that sizes come out exactly
//! as a computation in doubles gives them.

use vstd::arithmetic::power2;
use vstd::prelude::*;

verus! {

/// Two to the fifty-third: every integer below it is a double.
pub const EXACT_LIMIT: u128 = 0x20_0000_0000_0000;

/// Half of [`EXACT_LIMIT`]: the least integer with fifty-three binary digits.
pub const LEAST_MANTISSA: u128 = 0x10_0000_0000_0000;

/// `n / d` rounded to the nearest integer, a tie to the even one.
pub open spec fn half_even(n: nat, d: nat) -> nat {
    let whole = n / d;
    let rest = n % d;
    if 2 * rest > d || (2 * rest == d && whole % 2 == 1) {
        whole + 1
    } else {
        whole
    }
}

/// The distance between neighbouring doubles around `n`.
pub open spec fn spacing(n: nat) -> nat
    decreases n,
{
    if n < EXACT_LIMIT {
        1
    } else {
        2 * spacing(n / 2)
    }
}

/// The double nearest to the integer `n`, itself an integer.
pub open spec fn nearest_double(n: nat) -> nat {
    half_even(n, spacing(n)) * spacing(n)
}

/// How often `a` has to be doubled to make `a / b` reach fifty-three digits.
pub open spec fn quotient_shift(a: nat, b: nat) -> nat
    decreases (if a < LEAST_MANTISSA * b { LEAST_MANTISSA * b - a } else { 0 }),
{
    if a == 0 || a >= LEAST_MANTISSA * b {
        0
    } else {
        1 + quotient_shift(2 * a, b)
    }
}

/// `root` is the integer part of the square root of `n`.
pub open spec fn is_floor_root(n: nat, root: nat) -> bool {
    root * root <= n < (root + 1) * (root + 1)
}

/// The integer nearest to the square root of `n`.
pub open spec fn nearest_root(n: nat) -> nat {
    let root = choose|root: nat| is_floor_root(n, root);
    if n - root * root > root {
        root + 1
    } else {
        root
    }
}

/// A double that is at most one: `mantissa` halved `halvings` times.
pub struct Fraction {
    pub mantissa: u64,
    pub halvings: u32,
}

/// The double nearest to the square root of the double nearest to `a / b`, for
/// two doubles `a` and `b`: a mantissa and how often it is halved.
pub open spec fn quotient_root(a: nat, b: nat) -> (nat, nat) {
    let shift = quotient_shift(a, b);
    let quotient = half_even(a * power2::pow2(shift), b);
    if a == 0 {
        (0, 0)
    } else if shift % 2 == 0 {
        (nearest_root(quotient * LEAST_MANTISSA as nat), 26 + shift / 2)
    } else {
        (nearest_root(2 * quotient * LEAST_MANTISSA as nat), 26 + (shift + 1) / 2)
    }
}

/// The integer part of the double nearest to `value * mantissa / 2^halvings`.
pub open spec fn scaled_floor(value: nat, mantissa: nat, halvings: nat) -> nat {
    nearest_double(value * mantissa) / power2::pow2(halvings)
}

/// Computes [`half_even`].
pub fn round_half_even(n: u128, d: u128) -> (rounded: u128)
    requires
        0 < d,
        d <= u128::MAX / 2,
        n < u128::MAX,
    ensures
        rounded == half_even(n as nat, d as nat),
{
    let whole: u128 = n / d;
    let rest: u128 = n % d;
    if 2 * rest > d || (2 * rest == d && whole % 2 == 1) {
        assert(whole <= n) by (nonlinear_arith)
            requires
                whole == n / d,
                0 < d,
        ;
        whole + 1
    } else {
        whole
    }
}

/// The spacing divides a number into a mantissa of fifty-three digits.
proof fn spacing_bounds(n: nat)
    ensures
        spacing(n) >= 1,
        n / spacing(n) < EXACT_LIMIT,
        n >= LEAST_MANTISSA ==> n / spacing(n) >= LEAST_MANTISSA,
        n >= 1 ==> spacing(n) <= n,
    decreases n,
{
    if n >= EXACT_LIMIT {
        spacing_bounds(n / 2);
        let half = spacing(n / 2);
        assert(n / (2 * half) == (n / 2) / half) by {
            vstd::arithmetic::div_mod::lemma_div_denominator(n as int, 2, half as int);
        }
    } else {
        assert(n / 1 == n);
    }
}

/// The spacing grows with the number, and only by doubling.
proof fn spacing_doubles(n: nat, m: nat)
    requires
        n <= m,
    ensures
        spacing(n) == spacing(m) || 2 * spacing(n) <= spacing(m),
    decreases m,
{
    if m >= EXACT_LIMIT {
        if n >= EXACT_LIMIT {
            spacing_doubles(n / 2, m / 2);
        } else {
            spacing_bounds(m / 2);
        }
    }
}

/// Rounding to the nearest integer keeps to the two neighbours.
pub proof fn half_even_bounds(n: nat, d: nat)
    requires
        d >= 1,
    ensures
        n / d <= half_even(n, d) <= n / d + 1,
        half_even(n, d) * d <= n + d,
        n % d == 0 ==> half_even(n, d) == n / d,
        2 * (half_even(n, d) * d) <= 2 * n + d,
        2 * n <= 2 * (half_even(n, d) * d) + d,
{
    vstd::arithmetic::div_mod::lemma_fundamental_div_mod(n as int, d as int);
    assert((n / d + 1) * d == d * (n / d) + d) by (nonlinear_arith);
    assert((n / d) * d == d * (n / d)) by (nonlinear_arith);
}

/// Rounding to the nearest integer keeps the order.
pub proof fn half_even_is_monotone(n: nat, m: nat, d: nat)
    requires
        n <= m,
        d >= 1,
    ensures
        half_even(n, d) <= half_even(m, d),
{
    vstd::arithmetic::div_mod::lemma_div_is_ordered(n as int, m as int, d as int);
    vstd::arithmetic::div_mod::lemma_fundamental_div_mod(n as int, d as int);
    vstd::arithmetic::div_mod::lemma_fundamental_div_mod(m as int, d as int);
    if n / d == m / d {
    } else {
        half_even_bounds(n, d);
        half_even_bounds(m, d);
    }
}

/// A number and the double nearest to it: zero only for zero, at most half a
/// spacing apart.
pub proof fn nearest_double_is_near(n: nat)
    ensures
        n < EXACT_LIMIT ==> nearest_double(n) == n,
        n >= 1 ==> 1 <= nearest_double(n) <= 2 * n,
        2 * nearest_double(n) <= 2 * n + spacing(n),
        2 * n <= 2 * nearest_double(n) + spacing(n),
{
    spacing_bounds(n);
    half_even_bounds(n, spacing(n));
    if n < EXACT_LIMIT {
        assert(n / 1 == n && n % 1 == 0);
        assert(half_even(n, 1) * 1 == half_even(n, 1)) by (nonlinear_arith);
    } else {
        assert((n / spacing(n)) * spacing(n) >= 1) by (nonlinear_arith)
            requires
                n / spacing(n) >= 1,
                spacing(n) >= 1,
        ;
        assert(half_even(n, spacing(n)) * spacing(n) >= (n / spacing(n)) * spacing(n))
            by (nonlinear_arith)
            requires
                half_even(n, spacing(n)) >= n / spacing(n),
                spacing(n) >= 1,
        ;
    }
}

/// The nearest doubles to two numbers are in the order of the numbers.
pub proof fn nearest_double_is_monotone(n: nat, m: nat)
    requires
        n <= m,
    ensures
        nearest_double(n) <= nearest_double(m),
{
    let fine = spacing(n);
    let coarse = spacing(m);
    spacing_bounds(n);
    spacing_bounds(m);
    spacing_doubles(n, m);
    half_even_bounds(n, fine);
    half_even_bounds(m, coarse);
    if fine == coarse {
        half_even_is_monotone(n, m, fine);
        assert(half_even(n, fine) * fine <= half_even(m, fine) * fine) by (nonlinear_arith)
            requires
                half_even(n, fine) <= half_even(m, fine),
        ;
    } else {
        assert(half_even(n, fine) * fine <= EXACT_LIMIT * fine) by (nonlinear_arith)
            requires
                half_even(n, fine) <= EXACT_LIMIT,
        ;
        assert(EXACT_LIMIT * fine <= LEAST_MANTISSA * coarse) by (nonlinear_arith)
            requires
                2 * fine <= coarse,
                EXACT_LIMIT == 2 * LEAST_MANTISSA,
        ;
        assert(LEAST_MANTISSA * coarse <= half_even(m, coarse) * coarse) by (nonlinear_arith)
            requires
                LEAST_MANTISSA <= half_even(m, coarse),
        ;
    }
}

/// Computes [`nearest_double`].
pub fn to_double(n: u128) -> (double: u128)
    requires
        n < 0x1_0000_0000_0000_0000_0000_0000_0000,
    ensures
        double == nearest_double(n as nat),
{
    let mut unit: u128 = 1;
    let mut rest: u128 = n;
    while rest >= EXACT_LIMIT
        invariant
            n < 0x1_0000_0000_0000_0000_0000_0000_0000,
            1 <= unit,
            rest == n / unit,
            unit * rest <= n,
            spacing(n as nat) == unit * spacing(rest as nat),
        decreases rest,
    {
        proof {
            assert(unit * EXACT_LIMIT <= unit * rest) by (nonlinear_arith)
                requires
                    rest >= EXACT_LIMIT,
                    1 <= unit,
            ;
            assert(n / ((unit * 2) as u128) == (n / unit) / 2) by {
                vstd::arithmetic::div_mod::lemma_div_denominator(n as int, unit as int, 2);
            }
            assert(unit * (2 * spacing((rest / 2) as nat)) == (unit * 2) * spacing(
                (rest / 2) as nat,
            )) by (nonlinear_arith);
            assert((unit * 2) * (rest / 2) <= unit * rest) by (nonlinear_arith)
                requires
                    (rest / 2) * 2 <= rest,
                    1 <= unit,
            ;
        }
        unit = unit * 2;
        rest = rest / 2;
    }
    proof {
        assert(spacing(n as nat) == unit) by (nonlinear_arith)
            requires
                spacing(n as nat) == unit * spacing(rest as nat),
                spacing(rest as nat) == 1,
        ;
        assert(unit <= n + 1) by {
            spacing_bounds(n as nat);
        }
        assert(n / unit < EXACT_LIMIT);
    }
    let mantissa = round_half_even(n, unit);
    proof {
        assert(mantissa * unit <= n + unit) by (nonlinear_arith)
            requires
                mantissa <= n / unit + 1,
                1 <= unit,
        ;
    }
    mantissa * unit
}

/// There is only one integer part of a square root.
proof fn floor_root_is_unique(n: nat, a: nat, b: nat)
    requires
        is_floor_root(n, a),
        is_floor_root(n, b),
    ensures
        a == b,
{
    if a < b {
        assert((a + 1) * (a + 1) <= b * b) by (nonlinear_arith)
            requires
                a + 1 <= b,
        ;
    } else if b < a {
        assert((b + 1) * (b + 1) <= a * a) by (nonlinear_arith)
            requires
                b + 1 <= a,
        ;
    }
}

/// Every number has an integer part of its square root.
pub proof fn floor_root_exists(n: nat)
    ensures
        exists|root: nat| is_floor_root(n, root),
    decreases n,
{
    if n == 0 {
        assert(0 * 0 <= 0 < (0 + 1) * (0 + 1)) by (nonlinear_arith);
        assert(is_floor_root(0, 0));
    } else {
        let less = (n - 1) as nat;
        floor_root_exists(less);
        let root = choose|root: nat| is_floor_root(less, root);
        if n < (root + 1) * (root + 1) {
            assert(is_floor_root(n, root));
        } else {
            assert((root + 2) * (root + 2) == (root + 1) * (root + 1) + 2 * root + 3)
                by (nonlinear_arith);
            assert(is_floor_root(n, root + 1));
        }
    }
}

/// The nearest root overshoots by less than a half, and is no smaller than any
/// exact root below it.
pub proof fn nearest_root_is_near(n: nat, low: nat)
    requires
        low * low <= n,
    ensures
        nearest_root(n) * nearest_root(n) <= n + nearest_root(n),
        nearest_root(n) >= low,
{
    floor_root_exists(n);
    let root = choose|root: nat| is_floor_root(n, root);
    if root < low {
        assert((root + 1) * (root + 1) <= low * low) by (nonlinear_arith)
            requires
                root + 1 <= low,
        ;
    }
    assert((root + 1) * (root + 1) == root * root + 2 * root + 1) by (nonlinear_arith);
}

/// The shift makes the dividend large enough.
pub proof fn quotient_shift_reaches(a: nat, b: nat)
    requires
        a >= 1,
    ensures
        a * power2::pow2(quotient_shift(a, b)) >= LEAST_MANTISSA * b,
    decreases (if a < LEAST_MANTISSA * b { LEAST_MANTISSA * b - a } else { 0 }),
{
    let shift = quotient_shift(a, b);
    power2::lemma2_to64();
    if a < LEAST_MANTISSA * b {
        quotient_shift_reaches(2 * a, b);
        power2::lemma_pow2_unfold(shift);
        let less = power2::pow2((shift - 1) as nat);
        assert((2 * a) * less == a * (2 * less)) by (nonlinear_arith);
    } else {
        assert(a * 1 == a) by (nonlinear_arith);
    }
}

/// Rounding to a double adds at most a part in two to the fifty-third.
pub proof fn nearest_double_grows_little(n: nat)
    ensures
        nearest_double(n) * EXACT_LIMIT <= n * (EXACT_LIMIT + 1),
        n * (EXACT_LIMIT - 1) <= nearest_double(n) * EXACT_LIMIT,
{
    nearest_double_is_near(n);
    let double = nearest_double(n);
    if n < EXACT_LIMIT {
        assert(n * EXACT_LIMIT <= n * (EXACT_LIMIT + 1)) by (nonlinear_arith);
        assert(n * (EXACT_LIMIT - 1) <= n * EXACT_LIMIT) by (nonlinear_arith);
    } else {
        spacing_bounds(n);
        let unit = spacing(n);
        assert(unit * LEAST_MANTISSA <= n) by (nonlinear_arith)
            requires
                n / unit >= LEAST_MANTISSA,
                unit >= 1,
        ;
    }
}

/// Computes [`nearest_root`].
fn round_root(n: u128) -> (root: u128)
    requires
        n < 0x1000_0000_0000_0000_0000_0000_0000,
    ensures
        root == nearest_root(n as nat),
        root <= 0x40_0000_0000_0000,
{
    let mut root: u128 = 0;
    let mut bit: u128 = 0x40_0000_0000_0000;
    let mut left: u32 = 54;
    proof {
        power2::lemma2_to64();
        power2::lemma2_to64_rest();
        assert(bit * bit == 0x1000_0000_0000_0000_0000_0000_0000) by (nonlinear_arith)
            requires
                bit == 0x40_0000_0000_0000,
        ;
    }
    while left > 0
        invariant
            bit == power2::pow2(left as nat),
            root + bit <= 0x40_0000_0000_0000,
            root * root <= n < (root + bit) * (root + bit),
        decreases left,
    {
        proof {
            power2::lemma_pow2_unfold(left as nat);
        }
        left = left - 1;
        bit = bit / 2;
        let next: u128 = root + bit;
        assert(next * next <= 0x40_0000_0000_0000 * 0x40_0000_0000_0000) by (nonlinear_arith)
            requires
                next <= 0x40_0000_0000_0000,
        ;
        if next * next <= n {
            root = next;
        }
    }
    assert(bit == 1) by {
        power2::lemma2_to64();
    }
    proof {
        let chosen = choose|root: nat| is_floor_root(n as nat, root);
        assert(is_floor_root(n as nat, root as nat));
        floor_root_is_unique(n as nat, chosen, root as nat);
    }
    if n - root * root > root {
        root + 1
    } else {
        root
    }
}

/// The double nearest to the square root of the double nearest to `a / b`.
pub fn root_of_quotient(a: u128, b: u128) -> (root: Fraction)
    requires
        a <= b,
        1 <= b <= 0x2_0000_0000_0000_0000,
    ensures
        (root.mantissa as nat, root.halvings as nat) == quotient_root(a as nat, b as nat),
        root.mantissa <= 0x40_0000_0000_0000,
        root.halvings <= 100,
{
    if a == 0 {
        return Fraction { mantissa: 0, halvings: 0 };
    }
    let limit: u128 = LEAST_MANTISSA * b;
    let mut raised: u128 = a;
    let mut shift: u32 = 0;
    proof {
        power2::lemma2_to64();
        assert(a * power2::pow2(0) == a) by (nonlinear_arith)
            requires
                power2::pow2(0) == 1,
        ;
    }
    while raised < limit
        invariant
            1 <= a <= b,
            1 <= b <= 0x2_0000_0000_0000_0000,
            limit == LEAST_MANTISSA * b,
            shift <= 118,
            raised == a * power2::pow2(shift as nat),
            1 <= raised < 2 * limit,
            quotient_shift(a as nat, b as nat) == shift + quotient_shift(raised as nat, b as nat),
        decreases 2 * limit - raised,
    {
        proof {
            power2::lemma_pow2_unfold((shift + 1) as nat);
            assert(2 * (a * power2::pow2(shift as nat)) == a * power2::pow2((shift + 1) as nat))
                by (nonlinear_arith)
                requires
                    power2::pow2((shift + 1) as nat) == 2 * power2::pow2(shift as nat),
            ;
            if shift == 118 {
                power2::lemma_pow2_adds(64, 54);
                power2::lemma2_to64();
                power2::lemma2_to64_rest();
                assert(a * power2::pow2(118) >= power2::pow2(118)) by (nonlinear_arith)
                    requires
                        a >= 1,
                ;
            }
        }
        raised = 2 * raised;
        shift = shift + 1;
    }
    let quotient = round_half_even(raised, b);
    proof {
        assert(raised / b <= 2 * LEAST_MANTISSA - 1) by (nonlinear_arith)
            requires
                raised < 2 * (LEAST_MANTISSA * b),
                1 <= b,
        ;
    }
    if shift % 2 == 0 {
        let n: u128 = quotient * LEAST_MANTISSA;
        Fraction { mantissa: round_root(n) as u64, halvings: 26 + shift / 2 }
    } else {
        let n: u128 = 2 * quotient * LEAST_MANTISSA;
        Fraction { mantissa: round_root(n) as u64, halvings: 26 + (shift + 1) / 2 }
    }
}

proof fn product_bound(x: int, y: int, x_top: int, y_top: int)
    by (nonlinear_arith)
    requires
        0 <= x <= x_top,
        0 <= y <= y_top,
    ensures
        x * y <= x_top * y_top,
{
}

/// Multiplies an inequality through by a common factor on both sides.
proof fn scale_both(x: int, y: int, z: int)
    by (nonlinear_arith)
    requires
        x <= y,
        z >= 0,
    ensures
        x * z <= y * z,
{
}

/// Removes a common positive factor from both sides of an inequality.
proof fn cancel_both(x: int, y: int, z: int)
    by (nonlinear_arith)
    requires
        x * z <= y * z,
        z > 0,
    ensures
        x <= y,
{
}

/// The bounds on the quotient, the root and the products, put together.
proof fn combine_bounds(
    area: int,
    e: int,
    d: int,
    t: int,
    s: int,
    whole: int,
    square: int,
    k: int,
    q: int,
    part: int,
)
    requires
        area >= 0,
        whole >= 0,
        k >= 0,
        d >= 1,
        e >= 1,
        t >= 1,
        s >= 1,
        area * (d * t * s) * (e * e) <= whole * square * ((e + 1) * (e + 1)),
        square * (d - 1) <= s * k * d * d,
        whole * (e - 1) <= q * e,
        k * q * e <= part * t * (e + 1),
    ensures
        area * (e * e * (d - 1) * (e - 1)) <= part * (d * (e + 1) * (e + 1) * (e + 1)),
{
    let f = (e + 1) * (e + 1);
    let g = area * t * (e * e);
    // With the root's bound, less the factors `d` and `s`.
    scale_both(area * (d * t * s) * (e * e), whole * square * f, d - 1);
    assert(area * (d * t * s) * (e * e) * (d - 1) == (g * (d - 1)) * (d * s)) by (nonlinear_arith)
        requires
            g == area * t * (e * e),
    ;
    assert(whole * square * f * (d - 1) == (square * (d - 1)) * (whole * f)) by (nonlinear_arith);
    assert(whole * f >= 0) by (nonlinear_arith)
        requires
            whole >= 0,
            f == (e + 1) * (e + 1),
    ;
    scale_both(square * (d - 1), s * k * d * d, whole * f);
    assert((s * k * d * d) * (whole * f) == (whole * k * d * f) * (d * s)) by (nonlinear_arith);
    assert(d * s > 0) by (nonlinear_arith)
        requires
            d >= 1,
            s >= 1,
    ;
    cancel_both(g * (d - 1), whole * k * d * f, d * s);
    // With the bounds on the pixel count and the quotient, less the factor `t`.
    scale_both(g * (d - 1), whole * k * d * f, e - 1);
    assert(whole * k * d * f * (e - 1) == (whole * (e - 1)) * (k * d * f)) by (nonlinear_arith);
    assert(k * d * f >= 0) by (nonlinear_arith)
        requires
            k >= 0,
            d >= 1,
            f == (e + 1) * (e + 1),
    ;
    scale_both(whole * (e - 1), q * e, k * d * f);
    assert(q * e * (k * d * f) == (k * q * e) * (d * f)) by (nonlinear_arith);
    assert(d * f >= 0) by (nonlinear_arith)
        requires
            d >= 1,
            f == (e + 1) * (e + 1),
    ;
    scale_both(k * q * e, part * t * (e + 1), d * f);
    assert(g * (d - 1) * (e - 1) == (area * (e * e * (d - 1) * (e - 1))) * t) by (nonlinear_arith)
        requires
            g == area * t * (e * e),
    ;
    assert(part * t * (e + 1) * (d * f) == (part * (d * (e + 1) * (e + 1) * (e + 1))) * t)
        by (nonlinear_arith)
        requires
            f == (e + 1) * (e + 1),
    ;
    cancel_both(
        area * (e * e * (d - 1) * (e - 1)),
        part * (d * (e + 1) * (e + 1) * (e + 1)),
        t,
    );
}

/// Two axes that take the factor `sqrt(part / whole)`, computed in doubles and
/// rounded down, multiply to no more than `part`, for any part up to one and a
/// half quadrillion.
pub proof fn scaled_axes_stay_within(width: nat, height: nat, part: nat)
    requires
        width >= 1,
        height >= 1,
        1 <= part < width * height,
        part <= 1_500_000_000_000_000,
    ensures
        ({
            let scale = quotient_root(nearest_double(part), nearest_double(width * height));
            scaled_floor(width, scale.0, scale.1) * scaled_floor(height, scale.0, scale.1) <= part
        }),
{
    let e = EXACT_LIMIT as int;
    let d = LEAST_MANTISSA as int;
    let whole = width * height;
    let q = nearest_double(whole);
    nearest_double_is_near(part);
    nearest_double_is_near(whole);
    nearest_double_grows_little(whole);
    let shift = quotient_shift(part, q);
    let t = power2::pow2(shift);
    power2::lemma_pow2_pos(shift);
    let raised = part * t;
    let k = half_even(raised, q);
    quotient_shift_reaches(part, q);
    half_even_bounds(raised, q);
    assert(raised >= d * q);
    // The quotient, and what it may exceed the exact one by.
    assert(k >= d) by (nonlinear_arith)
        requires
            k >= raised / q,
            raised >= d * q,
            q >= 1,
    ;
    assert(k * q * e <= raised * (e + 1)) by (nonlinear_arith)
        requires
            2 * (k * q) <= 2 * raised + q,
            raised >= d * q,
            e == 2 * d,
            d >= 1,
    ;
    // The root.
    let even = shift % 2 == 0;
    let s: nat = if even {
        1
    } else {
        2
    };
    let n = (s * k * d) as nat;
    let up: nat = if even {
        26 + shift / 2
    } else {
        26 + (shift + 1) / 2
    };
    let r = nearest_root(n);
    assert(quotient_root(part, q) == (r, up)) by {
        if even {
            assert(1 * k * d == k * d) by (nonlinear_arith);
        }
    }
    assert(d * d <= n) by (nonlinear_arith)
        requires
            n == s * k * d,
            k >= d,
            s >= 1,
            d >= 1,
    ;
    nearest_root_is_near(n, d as nat);
    assert(r * r * (d - 1) <= n * d) by (nonlinear_arith)
        requires
            r * r <= n + r,
            r >= d,
            d >= 1,
    ;
    // The divisor and its square.
    let u = power2::pow2(up);
    power2::lemma_pow2_pos(up);
    assert(u * u == d * t * s) by {
        power2::lemma_pow2_adds(up, up);
        power2::lemma2_to64();
        power2::lemma2_to64_rest();
        if even {
            power2::lemma_pow2_adds(52, shift);
            assert(up + up == 52 + shift);
            assert(d * t * 1 == d * t) by (nonlinear_arith);
        } else {
            power2::lemma_pow2_adds(52, shift + 1);
            power2::lemma_pow2_unfold(shift + 1);
            assert(up + up == 52 + (shift + 1));
            assert(d * (2 * t) == d * t * 2) by (nonlinear_arith);
        }
    }
    // The two axes.
    let x = nearest_double(width * r);
    let y = nearest_double(height * r);
    let a = scaled_floor(width, r, up);
    let b = scaled_floor(height, r, up);
    nearest_double_grows_little(width * r);
    nearest_double_grows_little(height * r);
    assert(a * u <= x) by (nonlinear_arith)
        requires
            a == x / u,
            u >= 1,
    ;
    assert(b * u <= y) by (nonlinear_arith)
        requires
            b == y / u,
            u >= 1,
    ;
    let wide = width * r * (e + 1);
    let high = height * r * (e + 1);
    assert(a * u * e <= wide) by (nonlinear_arith)
        requires
            a * u <= x,
            x * e <= wide,
            e >= 1,
    ;
    assert(b * u * e <= high) by (nonlinear_arith)
        requires
            b * u <= y,
            y * e <= high,
            e >= 1,
    ;
    product_bound(a * u * e, b * u * e, wide, high);
    let area = a * b;
    assert((a * u * e) * (b * u * e) == area * (u * u) * (e * e)) by (nonlinear_arith)
        requires
            area == a * b,
    ;
    assert(wide * high == whole * (r * r) * ((e + 1) * (e + 1))) by (nonlinear_arith)
        requires
            wide == width * r * (e + 1),
            high == height * r * (e + 1),
            whole == width * height,
    ;
    combine_bounds(
        area as int,
        e,
        d,
        t as int,
        s as int,
        whole as int,
        (r * r) as int,
        k as int,
        q as int,
        part as int,
    );
    assert(area * (e * e * (d - 1) * (e - 1)) <= part * (d * (e + 1) * (e + 1) * (e + 1)));
    if area > part {
        let low = e * e * (d - 1) * (e - 1);
        let top = d * (e + 1) * (e + 1) * (e + 1);
        assert((part + 1) * low <= area * low) by (nonlinear_arith)
            requires
                area >= part + 1,
                low >= 0,
        ;
        assert(part * top < (part + 1) * low) by (nonlinear_arith)
            requires
                part <= 1_500_000_000_000_000,
                low == e * e * (d - 1) * (e - 1),
                top == d * (e + 1) * (e + 1) * (e + 1),
                e == 0x20_0000_0000_0000,
                d == 0x10_0000_0000_0000,
        ;
        assert(false);
    }
}

/// Computes [`scaled_floor`].
pub fn floor_of_scaled(value: u32, scale: &Fraction) -> (floor: u128)
    requires
        scale.mantissa <= 0x40_0000_0000_0000,
        scale.halvings <= 100,
    ensures
        floor == scaled_floor(value as nat, scale.mantissa as nat, scale.halvings as nat),
{
    assert(value * scale.mantissa <= 0x1_0000_0000 * 0x40_0000_0000_0000) by (nonlinear_arith)
        requires
            value <= 0x1_0000_0000,
            scale.mantissa <= 0x40_0000_0000_0000,
    ;
    let product: u128 = value as u128 * scale.mantissa as u128;
    let mut divisor: u128 = 1;
    let mut i: u32 = 0;
    proof {
        power2::lemma2_to64();
    }
    while i < scale.halvings
        invariant
            i <= scale.halvings <= 100,
            divisor == power2::pow2(i as nat),
        decreases scale.halvings - i,
    {
        proof {
            power2::lemma_pow2_unfold((i + 1) as nat);
            power2::lemma_pow2_strictly_increases(i as nat, 101);
            power2::lemma_pow2_adds(64, 37);
            power2::lemma2_to64();
            power2::lemma2_to64_rest();
        }
        divisor = divisor * 2;
        i = i + 1;
    }
    proof {
        power2::lemma_pow2_pos(scale.halvings as nat);
    }
    to_double(product) / divisor
}

} // verus!
