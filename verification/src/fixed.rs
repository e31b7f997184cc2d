//! Fixed-point scalar arithmetic.
//!
//! A quantity (length, coordinate, angle in radians, network weight) is an
//! `i64` counted in millionths: the value `1_000_000` stands for `1.0`.
//! Multiplication of two such quantities scales the integer product back
//! down by `SCALE`, truncating toward zero, exactly as `fmul_s` states.

use vstd::prelude::*;

verus! {

/// One fixed-point unit: a real value of 1.0.
pub const SCALE: i64 = 1_000_000;

/// Half a unit, used for midpoints and half-weights.
pub const HALF_SCALE: i64 = 500_000;

/// The angle pi in fixed-point radians.
pub const PI_FP: i64 = 3_141_593;

/// One full turn, kept at exactly twice `PI_FP` so that angle wrapping
/// lands in `[-PI_FP, PI_FP)`.
pub const TWO_PI_FP: i64 = 6_283_186;

/// Magnitude bound on the sine and cosine approximations over one turn.
pub const TRIG_LIM: i64 = 12_000_000;

/// Most links a chain may have: a machine limit that keeps every
/// intermediate product of the step generators inside an `i64`.
pub const N_MAX: usize = 16;

/// Longest allowed link: one fixed-point unit.
pub const L_MAX: i64 = 1_000_000;

/// Largest allowed chain origin coordinate.
pub const ORIGIN_LIM: i64 = 10_000_000;

/// Largest allowed joint angle magnitude.
pub const Q_LIM: i64 = 8_000_000;

/// Bound on every chain vertex coordinate:
/// `ORIGIN_LIM` plus `N_MAX` link advances of at most `TRIG_LIM` each.
pub const VERT_LIM: i64 = 202_000_000;

/// Truncating (toward-zero) division by a positive divisor: the semantics
/// of `/` on machine integers, stated over mathematical integers.
pub open spec fn tdiv(a: int, b: int) -> int
    recommends
        b > 0,
{
    if a >= 0 {
        a / b
    } else {
        -((-a) / b)
    }
}

/// Fixed-point product: the integer product scaled back down by `SCALE`.
pub open spec fn fmul_s(a: int, b: int) -> int {
    tdiv(a * b, SCALE as int)
}

/// Fixed-point quotient: numerator widened by `SCALE`, then divided.
pub open spec fn fdiv_s(a: int, b: int) -> int
    recommends
        b > 0,
{
    tdiv(a * (SCALE as int), b)
}

/// Clamp `x` into `[lo, hi]`.
pub open spec fn clamp_s(x: int, lo: int, hi: int) -> int {
    if x < lo {
        lo
    } else if x > hi {
        hi
    } else {
        x
    }
}

/// Truncating division shrinks magnitude: if `|a| <= m * b` then `|tdiv(a, b)| <= m`.
pub proof fn lemma_tdiv_bound(a: int, b: int, m: int)
    requires
        b > 0,
        m >= 0,
        -(m * b) <= a <= m * b,
    ensures
        -m <= tdiv(a, b) <= m,
{
    assert(m * b == b * m) by (nonlinear_arith);
    if a >= 0 {
        vstd::arithmetic::div_mod::lemma_div_pos_is_pos(a, b);
        vstd::arithmetic::div_mod::lemma_div_is_ordered(a, m * b, b);
        vstd::arithmetic::div_mod::lemma_div_multiples_vanish(m, b);
        assert((m * b) / b == m);
        assert(tdiv(a, b) == a / b);
        assert(a / b <= m);
        assert(a / b >= 0);
    } else {
        vstd::arithmetic::div_mod::lemma_div_pos_is_pos(-a, b);
        vstd::arithmetic::div_mod::lemma_div_is_ordered(-a, m * b, b);
        vstd::arithmetic::div_mod::lemma_div_multiples_vanish(m, b);
        assert((m * b) / b == m);
        assert(tdiv(a, b) == -((-a) / b));
        assert((-a) / b <= m);
        assert((-a) / b >= 0);
    }
}

/// Truncating division never grows the dividend: `b * tdiv(a, b)` lies
/// between zero and `a`.
pub proof fn lemma_tdiv_shrinks(a: int, b: int)
    requires
        b > 0,
    ensures
        a >= 0 ==> 0 <= b * tdiv(a, b) <= a,
        a < 0 ==> a <= b * tdiv(a, b) <= 0,
{
    if a >= 0 {
        vstd::arithmetic::div_mod::lemma_fundamental_div_mod(a, b);
        vstd::arithmetic::div_mod::lemma_mod_division_less_than_divisor(a, b);
        vstd::arithmetic::div_mod::lemma_div_pos_is_pos(a, b);
        assert(b * (a / b) >= 0) by (nonlinear_arith)
            requires
                b > 0,
                a / b >= 0,
        ;
    } else {
        vstd::arithmetic::div_mod::lemma_fundamental_div_mod(-a, b);
        vstd::arithmetic::div_mod::lemma_mod_division_less_than_divisor(-a, b);
        vstd::arithmetic::div_mod::lemma_div_pos_is_pos(-a, b);
        assert(b * ((-a) / b) >= 0) by (nonlinear_arith)
            requires
                b > 0,
                (-a) / b >= 0,
        ;
        assert(b * tdiv(a, b) == -(b * ((-a) / b))) by (nonlinear_arith)
            requires
                tdiv(a, b) == -((-a) / b),
        ;
    }
}

/// Magnitude bound for a product of bounded factors.
pub proof fn lemma_mul_bound(a: int, b: int, am: int, bm: int)
    requires
        0 <= am,
        0 <= bm,
        -am <= a <= am,
        -bm <= b <= bm,
    ensures
        -(am * bm) <= a * b <= am * bm,
{
    assert(-(am * bm) <= a * b <= am * bm) by (nonlinear_arith)
        requires
            0 <= am,
            0 <= bm,
            -am <= a <= am,
            -bm <= b <= bm,
    ;
}

/// Magnitude bound for a fixed-point product.
pub proof fn lemma_fmul_s_bound(a: int, b: int, m: int)
    requires
        m >= 0,
        -(m * (SCALE as int)) <= a * b <= m * (SCALE as int),
    ensures
        -m <= fmul_s(a, b) <= m,
{
    lemma_tdiv_bound(a * b, SCALE as int, m);
}

/// Truncating division of `a` by the positive divisor `b`.
pub fn div_trunc(a: i64, b: i64) -> (r: i64)
    requires
        b > 0,
        i64::MIN < a,
    ensures
        r == tdiv(a as int, b as int),
{
    if a >= 0 {
        proof {
            vstd::arithmetic::div_mod::lemma_div_pos_is_pos(a as int, b as int);
            vstd::arithmetic::div_mod::lemma_div_is_ordered(a as int, a as int, b as int);
            vstd::arithmetic::div_mod::lemma_div_nonincreasing(a as int, b as int);
        }
        a / b
    } else {
        let neg = -a;
        proof {
            vstd::arithmetic::div_mod::lemma_div_pos_is_pos(neg as int, b as int);
            vstd::arithmetic::div_mod::lemma_div_nonincreasing(neg as int, b as int);
        }
        -(neg / b)
    }
}

/// Fixed-point multiply; the caller shows the integer product fits in `i64`.
pub fn fmul(a: i64, b: i64) -> (r: i64)
    requires
        -0x7fff_ffff_ffff_ffff <= (a as int) * (b as int) <= 0x7fff_ffff_ffff_ffff,
    ensures
        r == fmul_s(a as int, b as int),
{
    let p: i64 = a * b;
    div_trunc(p, SCALE)
}

/// Fixed-point divide by a positive divisor; the widened numerator must fit.
pub fn fdiv(a: i64, b: i64) -> (r: i64)
    requires
        b > 0,
        -0x7fff_ffff_ffff_ffff <= (a as int) * (SCALE as int) <= 0x7fff_ffff_ffff_ffff,
    ensures
        r == fdiv_s(a as int, b as int),
{
    let p: i64 = a * SCALE;
    div_trunc(p, b)
}

/// An angle wrapped into `[-PI_FP, PI_FP)`, the range the trigonometric
/// polynomials are evaluated on.
pub open spec fn wrap_pi_s(q: int) -> int {
    (q + PI_FP) % (TWO_PI_FP as int) - PI_FP
}

/// Degree-seven Taylor polynomial of the sine, in fixed point.
pub open spec fn sin_poly_s(r: int) -> int {
    let r2 = fmul_s(r, r);
    let r3 = fmul_s(r2, r);
    let r5 = fmul_s(r3, r2);
    let r7 = fmul_s(r5, r2);
    r - tdiv(r3, 6) + tdiv(r5, 120) - tdiv(r7, 5040)
}

/// Degree-six Taylor polynomial of the cosine, in fixed point.
pub open spec fn cos_poly_s(r: int) -> int {
    let r2 = fmul_s(r, r);
    let r4 = fmul_s(r2, r2);
    let r6 = fmul_s(r4, r2);
    SCALE - tdiv(r2, 2) + tdiv(r4, 24) - tdiv(r6, 720)
}

/// The library's sine: the Taylor polynomial on the wrapped angle.
pub open spec fn sin_s(q: int) -> int {
    sin_poly_s(wrap_pi_s(q))
}

/// The library's cosine: the Taylor polynomial on the wrapped angle.
pub open spec fn cos_s(q: int) -> int {
    cos_poly_s(wrap_pi_s(q))
}

/// Wrap an angle into `[-PI_FP, PI_FP)` by whole turns.
pub fn wrap_angle(q: i64) -> (r: i64)
    requires
        -1_000_000_000_000 <= q <= 1_000_000_000_000,
    ensures
        r == wrap_pi_s(q as int),
        -PI_FP <= r < PI_FP,
{
    let mut w: i64 = q;
    while w >= PI_FP
        invariant
            -1_000_000_000_000 <= w <= 1_000_000_000_000,
            wrap_pi_s(w as int) == wrap_pi_s(q as int),
        decreases w + TWO_PI_FP,
    {
        proof {
            vstd::arithmetic::div_mod::lemma_mod_sub_multiples_vanish(
                w + PI_FP,
                TWO_PI_FP as int,
            );
        }
        w = w - TWO_PI_FP;
    }
    while w < -PI_FP
        invariant
            -1_000_000_000_000 <= w < PI_FP,
            wrap_pi_s(w as int) == wrap_pi_s(q as int),
        decreases PI_FP - w,
    {
        proof {
            vstd::arithmetic::div_mod::lemma_mod_add_multiples_vanish(
                w + PI_FP,
                TWO_PI_FP as int,
            );
        }
        w = w + TWO_PI_FP;
    }
    proof {
        vstd::arithmetic::div_mod::lemma_small_mod((w + PI_FP) as nat, TWO_PI_FP as nat);
    }
    w
}

/// Sine of a fixed-point angle: exactly `sin_s`, bounded by `TRIG_LIM`.
pub fn sin_fp(q: i64) -> (r: i64)
    requires
        -1_000_000_000_000 <= q <= 1_000_000_000_000,
    ensures
        r == sin_s(q as int),
        -TRIG_LIM <= r <= TRIG_LIM,
{
    let w = wrap_angle(q);
    proof {
        lemma_mul_bound(w as int, w as int, PI_FP as int, PI_FP as int);
        lemma_fmul_s_bound(w as int, w as int, 9_870_000);
    }
    let r2 = fmul(w, w);
    proof {
        lemma_mul_bound(r2 as int, w as int, 9_870_000, PI_FP as int);
        lemma_fmul_s_bound(r2 as int, w as int, 31_010_000);
    }
    let r3 = fmul(r2, w);
    proof {
        lemma_mul_bound(r3 as int, r2 as int, 31_010_000, 9_870_000);
        lemma_fmul_s_bound(r3 as int, r2 as int, 306_100_000);
    }
    let r5 = fmul(r3, r2);
    proof {
        lemma_mul_bound(r5 as int, r2 as int, 306_100_000, 9_870_000);
        lemma_fmul_s_bound(r5 as int, r2 as int, 3_021_300_000);
    }
    let r7 = fmul(r5, r2);
    proof {
        lemma_tdiv_bound(r3 as int, 6, 5_170_000);
        lemma_tdiv_bound(r5 as int, 120, 2_551_000);
        lemma_tdiv_bound(r7 as int, 5040, 600_000);
    }
    let t3 = div_trunc(r3, 6);
    let t5 = div_trunc(r5, 120);
    let t7 = div_trunc(r7, 5040);
    w - t3 + t5 - t7
}

/// Cosine of a fixed-point angle: exactly `cos_s`, bounded by `TRIG_LIM`.
pub fn cos_fp(q: i64) -> (r: i64)
    requires
        -1_000_000_000_000 <= q <= 1_000_000_000_000,
    ensures
        r == cos_s(q as int),
        -TRIG_LIM <= r <= TRIG_LIM,
{
    let w = wrap_angle(q);
    proof {
        lemma_mul_bound(w as int, w as int, PI_FP as int, PI_FP as int);
        lemma_fmul_s_bound(w as int, w as int, 9_870_000);
    }
    let r2 = fmul(w, w);
    proof {
        lemma_mul_bound(r2 as int, r2 as int, 9_870_000, 9_870_000);
        lemma_fmul_s_bound(r2 as int, r2 as int, 97_420_000);
    }
    let r4 = fmul(r2, r2);
    proof {
        lemma_mul_bound(r4 as int, r2 as int, 97_420_000, 9_870_000);
        lemma_fmul_s_bound(r4 as int, r2 as int, 961_600_000);
    }
    let r6 = fmul(r4, r2);
    proof {
        lemma_tdiv_bound(r2 as int, 2, 4_935_000);
        lemma_tdiv_bound(r4 as int, 24, 4_060_000);
        lemma_tdiv_bound(r6 as int, 720, 1_336_000);
    }
    let t2 = div_trunc(r2, 2);
    let t4 = div_trunc(r4, 24);
    let t6 = div_trunc(r6, 720);
    SCALE - t2 + t4 - t6
}

/// Clamp a value into `[lo, hi]`.
pub fn clamp_i64(x: i64, lo: i64, hi: i64) -> (r: i64)
    requires
        lo <= hi,
    ensures
        r == clamp_s(x as int, lo as int, hi as int),
        lo <= r <= hi,
{
    if x < lo {
        lo
    } else if x > hi {
        hi
    } else {
        x
    }
}

/// The integer square root: the unique `q >= 0` with
/// `q * q <= x < (q + 1) * (q + 1)`.
pub open spec fn sqrt_floor_s(x: int) -> int {
    choose|q: int| 0 <= q && #[trigger] (q * q) <= x && (q + 1) * (q + 1) > x
}

/// Two integer square roots of the same value are equal.
pub proof fn lemma_sqrt_unique(x: int, q1: int, q2: int)
    requires
        0 <= q1,
        q1 * q1 <= x,
        (q1 + 1) * (q1 + 1) > x,
        0 <= q2,
        q2 * q2 <= x,
        (q2 + 1) * (q2 + 1) > x,
    ensures
        q1 == q2,
{
    assert(q1 == q2) by (nonlinear_arith)
        requires
            0 <= q1,
            q1 * q1 <= x,
            (q1 + 1) * (q1 + 1) > x,
            0 <= q2,
            q2 * q2 <= x,
            (q2 + 1) * (q2 + 1) > x,
    ;
}

/// Integer square root by bisection.
pub fn isqrt(x: i64) -> (r: i64)
    requires
        0 <= x,
    ensures
        0 <= r,
        r * r <= x,
        (r + 1) * (r + 1) > x,
        r == sqrt_floor_s(x as int),
        r <= 3_037_000_500,
{
    let mut lo: i64 = 0;
    let mut hi: i64 = 3_037_000_500;
    proof {
        assert((3_037_000_500 as int) * (3_037_000_500 as int) > x);
    }
    while lo + 1 < hi
        invariant
            0 <= lo < hi <= 3_037_000_500,
            lo * lo <= x,
            hi * hi > x,
        decreases hi - lo,
    {
        let mid = lo + (hi - lo) / 2;
        proof {
            assert(lo < mid < hi);
            assert(mid * mid <= 3_037_000_499 * 3_037_000_499) by (nonlinear_arith)
                requires
                    0 <= mid <= 3_037_000_499,
            ;
        }
        let sq = mid * mid;
        if sq <= x {
            lo = mid;
        } else {
            hi = mid;
        }
    }
    proof {
        let q = choose|q: int| 0 <= q && #[trigger] (q * q) <= x && (q + 1) * (q + 1) > x;
        assert(0 <= lo as int && lo as int * lo as int <= x && (lo as int + 1) * (lo as int + 1)
            > x);
        lemma_sqrt_unique(x as int, lo as int, q);
    }
    lo
}

} // verus!
