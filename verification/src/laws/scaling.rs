//! Sizes under a pixel budget.

use vstd::arithmetic::power2;
use vstd::prelude::*;

use crate::full;
use crate::rounding::{self, EXACT_LIMIT, LEAST_MANTISSA};

verus! {

proof fn multiplied(x: int, y: int, z: int)
    by (nonlinear_arith)
    requires
        x <= y,
        z >= 0,
    ensures
        x * z <= y * z,
        z * x <= z * y,
{
}

proof fn divided(x: int, y: int, z: int)
    by (nonlinear_arith)
    requires
        x * z <= y * z,
        z > 0,
    ensures
        x <= y,
{
}

proof fn multiplied_together(a: int, b: int, x: int, y: int)
    by (nonlinear_arith)
    requires
        0 <= a <= x,
        0 <= b <= y,
    ensures
        a * b <= x * y,
{
}

/// The nearest root falls short by no more than a half, and exceeds no exact
/// root above it.
proof fn the_root_is_near(n: nat, low: nat, high: nat)
    requires
        low * low <= n <= high * high,
    ensures
        low <= rounding::nearest_root(n) <= high,
        n <= rounding::nearest_root(n) * rounding::nearest_root(n) + rounding::nearest_root(n),
{
    rounding::floor_root_exists(n);
    rounding::nearest_root_is_near(n, low);
    let root = choose|root: nat| rounding::is_floor_root(n, root);
    let r = rounding::nearest_root(n);
    assert((root + 1) * (root + 1) == root * root + 2 * root + 1) by (nonlinear_arith);
    if r > high {
        assert(r * r >= high * high + high + r) by (nonlinear_arith)
            requires
                r >= high + 1,
        ;
        assert(high * high < n);
    }
}

/// The factor is near the square root of the quotient, and at most one.
proof fn the_factor_is_near(part: nat, whole: nat) -> (scale: (nat, nat))
    requires
        1 <= part < whole,
        part <= 1_500_000_000_000_000,
    ensures
        scale == rounding::quotient_root(
            rounding::nearest_double(part),
            rounding::nearest_double(whole),
        ),
        ({
            let e = EXACT_LIMIT as int;
            let d = LEAST_MANTISSA as int;
            let r = scale.0 as int;
            let u = power2::pow2(scale.1) as int;
            &&& u >= 1
            &&& r <= u
            &&& (u * u) * (part * (d * (e - 1))) <= (r * r) * (whole * ((d + 1) * (e + 1)))
        }),
{
    let e = EXACT_LIMIT as int;
    let d = LEAST_MANTISSA as int;
    let q = rounding::nearest_double(whole);
    rounding::nearest_double_is_near(part);
    rounding::nearest_double_is_near(whole);
    rounding::nearest_double_is_monotone(part, whole);
    rounding::nearest_double_grows_little(whole);
    let shift = rounding::quotient_shift(part, q);
    let t = power2::pow2(shift);
    power2::lemma_pow2_pos(shift);
    let raised = part * t;
    let k = rounding::half_even(raised, q);
    rounding::quotient_shift_reaches(part, q);
    rounding::half_even_bounds(raised, q);
    assert(k >= d) by (nonlinear_arith)
        requires
            k >= raised / q,
            raised >= d * q,
            q >= 1,
    ;
    // The quotient falls short by little, and is at most one.
    assert(raised * (e - 1) <= k * q * e) by (nonlinear_arith)
        requires
            2 * raised <= 2 * (k * q) + q,
            raised >= d * q,
            e == 2 * d,
            d >= 1,
    ;
    let all = q * t;
    assert(raised <= all) by (nonlinear_arith)
        requires
            raised == part * t,
            all == q * t,
            part <= q,
    ;
    rounding::half_even_is_monotone(raised, all, q);
    rounding::half_even_bounds(all, q);
    assert(all / q == t && all % q == 0) by {
        vstd::arithmetic::div_mod::lemma_div_multiples_vanish(t as int, q as int);
        vstd::arithmetic::div_mod::lemma_mod_multiples_basic(t as int, q as int);
        assert(q * t == t * q) by (nonlinear_arith);
    }
    assert(k <= t);
    // The root.
    let even = shift % 2 == 0;
    let s: nat = if even {
        1
    } else {
        2
    };
    let n = (s * k * d) as nat;
    let up: nat = if even {
        26 + shift / 2
    } else {
        26 + (shift + 1) / 2
    };
    let r = rounding::nearest_root(n);
    assert(rounding::quotient_root(part, q) == (r, up)) by {
        if even {
            assert(1 * k * d == k * d) by (nonlinear_arith);
        }
    }
    let u = power2::pow2(up);
    power2::lemma_pow2_pos(up);
    assert(u * u == d * t * s) by {
        power2::lemma_pow2_adds(up, up);
        power2::lemma2_to64();
        power2::lemma2_to64_rest();
        if even {
            power2::lemma_pow2_adds(52, shift);
            assert(up + up == 52 + shift);
            assert(d * t * 1 == d * t) by (nonlinear_arith);
        } else {
            power2::lemma_pow2_adds(52, shift + 1);
            power2::lemma_pow2_unfold(shift + 1);
            assert(up + up == 52 + (shift + 1));
            assert(d * (2 * t) == d * t * 2) by (nonlinear_arith);
        }
    }
    assert(d * d <= n) by (nonlinear_arith)
        requires
            n == s * k * d,
            k >= d,
            s >= 1,
            d >= 1,
    ;
    assert(n <= d * t * s) by (nonlinear_arith)
        requires
            n == s * k * d,
            k <= t,
            s >= 1,
            d >= 1,
    ;
    the_root_is_near(n, d as nat, u);
    assert(n * d <= r * r * (d + 1)) by (nonlinear_arith)
        requires
            n <= r * r + r,
            r >= d,
            d >= 1,
    ;
    // Put together.
    let square = (r * r) as int;
    let f = whole * (e + 1);
    multiplied((n * d) as int, square * (d + 1), f);
    assert(f >= 0) by (nonlinear_arith)
        requires
            f == whole * (e + 1),
            e >= 1,
    ;
    assert(q * e <= f);
    let g = s * k * d * d;
    assert(g == n * d);
    assert(g >= 0) by (nonlinear_arith)
        requires
            g == n * d,
            d >= 1,
    ;
    multiplied((q * e) as int, f, g);
    assert(g * (q * e) == (k * q * e) * (s * d * d)) by (nonlinear_arith)
        requires
            g == s * k * d * d,
    ;
    let h = s * d * d;
    assert(h >= 0) by (nonlinear_arith)
        requires
            h == s * d * d,
            s >= 1,
            d >= 1,
    ;
    multiplied(raised * (e - 1), k * q * e, h);
    assert(raised * (e - 1) * h == (d * t * s) * (part * (d * (e - 1)))) by (nonlinear_arith)
        requires
            raised == part * t,
            h == s * d * d,
    ;
    assert(square * (d + 1) * f == square * (whole * ((d + 1) * (e + 1)))) by (nonlinear_arith)
        requires
            f == whole * (e + 1),
    ;
    assert((k * q * e) * h == g * (q * e));
    assert((n * d) * f == g * f);
    (r, up)
}

/// One axis and the factor.
proof fn an_axis_is_near(value: nat, r: nat, up: nat)
    requires
        r <= power2::pow2(up),
        value <= 0xffff_ffff,
    ensures
        ({
            let e = EXACT_LIMIT as int;
            let u = power2::pow2(up) as int;
            let floor = rounding::scaled_floor(value, r, up) as int;
            &&& floor * u * e <= value * r * (e + 1)
            &&& value * r * (e - 1) <= (floor + 1) * u * e
            &&& floor <= value
        }),
{
    let e = EXACT_LIMIT as int;
    let u = power2::pow2(up) as int;
    power2::lemma_pow2_pos(up);
    let n = value * r;
    let x = rounding::nearest_double(n) as int;
    let floor = rounding::scaled_floor(value, r, up) as int;
    rounding::nearest_double_grows_little(n);
    vstd::arithmetic::div_mod::lemma_fundamental_div_mod(x, u);
    assert(floor * u <= x <= (floor + 1) * u) by (nonlinear_arith)
        requires
            x == u * (x / u) + x % u,
            0 <= x % u < u,
            floor == x / u,
    ;
    multiplied(floor * u, x, e);
    multiplied(x, (floor + 1) * u, e);
    assert(n * (e + 1) == value * r * (e + 1));
    assert(n * (e - 1) == value * r * (e - 1));
    if floor > value {
        assert(value * r * (e + 1) <= value * u * (e + 1)) by (nonlinear_arith)
            requires
                r <= u,
                e >= 1,
        ;
        assert((value + 1) * u * e <= floor * u * e) by (nonlinear_arith)
            requires
                floor >= value + 1,
                u >= 1,
                e >= 1,
        ;
        assert(value * u * (e + 1) < (value + 1) * u * e) by (nonlinear_arith)
            requires
                value < e,
                u >= 1,
        ;
        assert(false);
    }
}

/// Both axes grown by a pixel are no longer below the part.
proof fn two_axes_are_near(
    width: nat,
    height: nat,
    part: nat,
    r: int,
    u: int,
    x: int,
    y: int,
)
    requires
        1 <= part <= 1_500_000_000_000_000,
        u >= 1,
        r >= 0,
        x >= 0,
        y >= 0,
        ({
            let e = EXACT_LIMIT as int;
            let d = LEAST_MANTISSA as int;
            &&& (u * u) * (part * (d * (e - 1))) <= (r * r) * ((width * height) * ((d + 1) * (e
                + 1)))
            &&& width * r * (e - 1) <= (x + 1) * u * e
            &&& height * r * (e - 1) <= (y + 1) * u * e
        }),
    ensures
        (x + 1) * (y + 1) >= part,
{
    let e = EXACT_LIMIT as int;
    let d = LEAST_MANTISSA as int;
    let whole = (width * height) as int;
    let area = (x + 1) * (y + 1);
    let wide = width * r * (e - 1);
    let high = height * r * (e - 1);
    assert(wide >= 0 && high >= 0) by (nonlinear_arith)
        requires
            wide == width * r * (e - 1),
            high == height * r * (e - 1),
            r >= 0,
            e >= 1,
    ;
    multiplied_together(wide, high, (x + 1) * u * e, (y + 1) * u * e);
    let low = (e - 1) * (e - 1);
    let grown = (d + 1) * (e + 1);
    assert(wide * high == (r * r) * whole * low) by (nonlinear_arith)
        requires
            wide == width * r * (e - 1),
            high == height * r * (e - 1),
            whole == width * height,
            low == (e - 1) * (e - 1),
    ;
    assert(((x + 1) * u * e) * ((y + 1) * u * e) == area * (u * u) * (e * e)) by (nonlinear_arith)
        requires
            area == (x + 1) * (y + 1),
    ;
    multiplied((r * r) * whole * low, area * (u * u) * (e * e), grown);
    assert((r * r) * whole * low * grown == ((r * r) * (whole * grown)) * low) by (nonlinear_arith);
    multiplied((u * u) * (part * (d * (e - 1))), (r * r) * (whole * grown), low);
    let short = d * (e - 1) * low;
    let long = e * e * grown;
    assert((u * u) * (part * (d * (e - 1))) * low == (part * short) * (u * u)) by (nonlinear_arith)
        requires
            short == d * (e - 1) * low,
    ;
    assert(area * (u * u) * (e * e) * grown == (area * long) * (u * u)) by (nonlinear_arith)
        requires
            long == e * e * grown,
    ;
    assert(u * u > 0) by (nonlinear_arith)
        requires
            u >= 1,
    ;
    divided(part * short, area * long, u * u);
    if area < part {
        assert(area * long <= (part - 1) * long) by (nonlinear_arith)
            requires
                area <= part - 1,
                long >= 0,
        ;
        assert((part - 1) * long < part * short) by (nonlinear_arith)
            requires
                1 <= part <= 1_500_000_000_000_000,
                short == d * (e - 1) * ((e - 1) * (e - 1)),
                long == e * e * ((d + 1) * (e + 1)),
                e == 0x20_0000_0000_0000,
                d == 0x10_0000_0000_0000,
        ;
        assert(false);
    }
}

/// The two axes keep their ratio, to two pixels.
proof fn two_axes_keep_their_ratio(
    width: int,
    height: int,
    r: int,
    u: int,
    x: int,
    y: int,
)
    requires
        u >= 1,
        r >= 0,
        width >= 1,
        height >= 1,
        0 <= x,
        0 <= y <= 0xffff_ffff,
        ({
            let e = EXACT_LIMIT as int;
            &&& x * u * e <= width * r * (e + 1)
            &&& height * r * (e - 1) <= (y + 1) * u * e
        }),
    ensures
        x * height < (y + 2) * width,
{
    let e = EXACT_LIMIT as int;
    let a = height * (e - 1);
    let b = width * (e + 1);
    assert(a >= 0 && b >= 0) by (nonlinear_arith)
        requires
            a == height * (e - 1),
            b == width * (e + 1),
            width >= 1,
            height >= 1,
            e >= 1,
    ;
    multiplied(x * u * e, width * r * (e + 1), a);
    multiplied(height * r * (e - 1), (y + 1) * u * e, b);
    assert(width * r * (e + 1) * a == height * r * (e - 1) * b) by (nonlinear_arith)
        requires
            a == height * (e - 1),
            b == width * (e + 1),
    ;
    assert(x * u * e * a == (x * a) * (u * e)) by (nonlinear_arith);
    assert((y + 1) * u * e * b == ((y + 1) * b) * (u * e)) by (nonlinear_arith);
    assert(u * e > 0) by (nonlinear_arith)
        requires
            u >= 1,
            e >= 1,
    ;
    divided(x * a, (y + 1) * b, u * e);
    if x * height >= (y + 2) * width {
        let left = x * height;
        let right = (y + 2) * width;
        multiplied(right, left, e - 1);
        assert(left * (e - 1) == x * a) by (nonlinear_arith)
            requires
                left == x * height,
                a == height * (e - 1),
        ;
        assert((y + 1) * b < right * (e - 1)) by (nonlinear_arith)
            requires
                b == width * (e + 1),
                right == (y + 2) * width,
                width >= 1,
                0 <= y,
                2 * (y + 1) < e - 1,
        ;
        assert(false);
    }
}

/// Where the pixel budget binds, it is used up to a pixel on each axis: one more
/// on both would reach it. Both axes then keep their ratio to two pixels, unless
/// one is down to a single pixel.
pub proof fn the_pixel_budget_is_used(width: nat, height: nat, max_side: nat, max_pixels: nat)
    requires
        1 <= width <= max_side,
        1 <= height <= max_side,
        max_side <= 0xffff_ffff,
        1 <= max_pixels < width * height,
        max_pixels <= 1_500_000_000_000_000,
    ensures
        ({
            let size = full::fitted(width, height, max_side, max_pixels);
            &&& size.0 * size.1 <= max_pixels
            &&& (size.0 + 1) * (size.1 + 1) >= max_pixels
            &&& size.0 > 1 && size.1 > 1 ==> size.0 * height < (size.1 + 2) * width
            &&& size.0 > 1 && size.1 > 1 ==> size.1 * width < (size.0 + 2) * height
        }),
{
    let scale = the_factor_is_near(max_pixels, width * height);
    let (r, up) = scale;
    let u = power2::pow2(up) as int;
    let x = rounding::scaled_floor(width, r, up);
    let y = rounding::scaled_floor(height, r, up);
    an_axis_is_near(width, r, up);
    an_axis_is_near(height, r, up);
    two_axes_are_near(width, height, max_pixels, r as int, u, x as int, y as int);
    two_axes_keep_their_ratio(width as int, height as int, r as int, u, x as int, y as int);
    two_axes_keep_their_ratio(height as int, width as int, r as int, u, y as int, x as int);
    full::the_pixel_budget_binds(width, height, max_side, max_pixels);
    let a = full::axis_scaled(width, scale);
    let b = full::axis_scaled(height, scale);
    assert(full::pixel_scale(max_pixels, width * height) == scale);
    assert(full::side_fitted(width, height, max_side) == (width, height));
    multiplied_together((x + 1) as int, (y + 1) as int, (a + 1) as int, (b + 1) as int);
    let size = full::fitted(width, height, max_side, max_pixels);
    assert(size == full::cut_to(a, b, max_pixels));
    if x >= 1 && y >= 1 {
        full::scaled_axes_need_no_cut(width, height, max_side, max_pixels);
        assert(size == (x, y));
    } else if a * b <= max_pixels {
        assert(size == (a, b));
    } else {
        assert(a == 1 || b == 1);
        assert(size.0 == max_pixels || size.1 == max_pixels);
        assert((size.0 + 1) * (size.1 + 1) >= max_pixels) by (nonlinear_arith)
            requires
                size.0 == max_pixels || size.1 == max_pixels,
        ;
    }
}

/// Where both limits bind, the image is first brought under the side limit and
/// then under the budget.
pub proof fn both_limits_are_met_in_turn(width: nat, height: nat, max_side: nat, max_pixels: nat)
    requires
        width >= 1,
        height >= 1,
        max_side >= 1,
    ensures
        ({
            let side = full::fitted(width, height, max_side, max_side * max_side);
            full::fitted(width, height, max_side, max_pixels) == full::fitted(
                side.0,
                side.1,
                max_side,
                max_pixels,
            )
        }),
{
    let room = max_side * max_side;
    let side = full::side_fitted(width, height, max_side);
    let (long, short) = if width >= height {
        (width, height)
    } else {
        (height, width)
    };
    let ratio = short * max_side / long;
    assert(ratio <= max_side) by (nonlinear_arith)
        requires
            ratio == short * max_side / long,
            short <= long,
            long >= 1,
    ;
    assert(1 <= side.0 <= max_side && 1 <= side.1 <= max_side);
    assert(side.0 * side.1 <= room) by (nonlinear_arith)
        requires
            side.0 <= max_side,
            side.1 <= max_side,
            room == max_side * max_side,
    ;
    assert(full::fitted(width, height, max_side, room) == side);
}

} // verus!
