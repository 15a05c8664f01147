//! Exact 16.16 fixed-point scalar arithmetic: products, scaled quotients,
//! integer square roots, angle reduction and unwrapping, and the sine,
//! cosine and arc-tangent approximations the ray caster and the simulation
//! are built on.
//!
//! Every executable function here is pinned by its `ensures` to a spec
//! function of its arguments, so callers (and the projection laws) can
//! reason about results exactly.

use vstd::prelude::*;
use vstd::arithmetic::div_mod::{
    lemma_fundamental_div_mod, lemma_fundamental_div_mod_converse, lemma_mod_bound,
    lemma_mod_multiples_basic,
};

use crate::constants::{DIST_CAP_FX, FX_ONE, HALF_PI_FX, PI_FX, QUARTER_PI_FX, TAU_FX};

verus! {

/// Bound on the scalars fed to the general arithmetic helpers.
pub const FX_LIMIT: i64 = 4611686018427387904;

/// Bound on the angles fed to the trigonometric helpers; far wider than any
/// angle the simulation stores.
pub const ANGLE_LIMIT: i64 = 274877906944;

/// Magnitude of an integer, as a spec value.
pub open spec fn spec_abs(a: int) -> int {
    if a >= 0 {
        a
    } else {
        -a
    }
}

/// Euclidean floor division by a positive divisor.
pub fn div_euclid_fx(a: i64, b: i64) -> (q: i64)
    requires
        0 < b,
        -FX_LIMIT <= a <= FX_LIMIT,
    ensures
        q == a as int / b as int,
{
    if a >= 0 {
        let q0: u64 = (a as u64) / (b as u64);
        q0 as i64
    } else {
        let m: u64 = (-a) as u64;
        let q0: u64 = m / (b as u64);
        let r0: u64 = m % (b as u64);
        proof {
            lemma_fundamental_div_mod(m as int, b as int);
            lemma_mod_bound(m as int, b as int);
            assert(m == (b as int) * (q0 as int) + r0);
            if r0 == 0 {
                assert((-(q0 as int)) * (b as int) == -((b as int) * (q0 as int)))
                    by (nonlinear_arith);
                lemma_fundamental_div_mod_converse(a as int, b as int, -(q0 as int), 0);
            } else {
                assert((-(q0 as int) - 1) * (b as int) + (b - r0) == -((b as int) * (
                q0 as int) + r0)) by (nonlinear_arith);
                lemma_fundamental_div_mod_converse(
                    a as int,
                    b as int,
                    -(q0 as int) - 1,
                    b - r0,
                );
            }
        }
        if r0 == 0 {
            -(q0 as i64)
        } else {
            -(q0 as i64) - 1
        }
    }
}

/// Euclidean remainder by a positive divisor.
pub fn rem_euclid_fx(a: i64, b: i64) -> (r: i64)
    requires
        0 < b <= FX_LIMIT,
        -FX_LIMIT <= a <= FX_LIMIT,
    ensures
        r == a as int % b as int,
        0 <= r < b,
{
    let q = div_euclid_fx(a, b);
    proof {
        lemma_fundamental_div_mod(a as int, b as int);
        lemma_mod_bound(a as int, b as int);
        assert((q as int) * (b as int) == (b as int) * (q as int)) by (nonlinear_arith);
        assert((q as int) * (b as int) == a as int - a as int % b as int);
    }
    a - q * b
}

/// The product of two fixed-point scalars, truncated toward zero.
pub open spec fn spec_mul_fx(a: int, b: int) -> int {
    let m = (spec_abs(a) * spec_abs(b)) / (FX_ONE as int);
    if (a >= 0) == (b >= 0) {
        m
    } else {
        -m
    }
}

/// Multiplies two fixed-point scalars.
pub fn mul_fx(a: i64, b: i64) -> (r: i64)
    requires
        -2147483648 <= a <= 2147483648,
        -2147483648 <= b <= 2147483648,
    ensures
        r == spec_mul_fx(a as int, b as int),
        spec_abs(r as int) * FX_ONE <= spec_abs(a as int) * spec_abs(b as int),
{
    let ma: u64 = if a < 0 { (-a) as u64 } else { a as u64 };
    let mb: u64 = if b < 0 { (-b) as u64 } else { b as u64 };
    proof {
        assert(ma * mb <= 2147483648 * 2147483648) by (nonlinear_arith)
            requires
                ma <= 2147483648,
                mb <= 2147483648,
        ;
    }
    let p: u64 = ma * mb;
    let q: u64 = p / (FX_ONE as u64);
    proof {
        lemma_fundamental_div_mod(p as int, FX_ONE as int);
        lemma_mod_bound(p as int, FX_ONE as int);
    }
    if (a < 0) != (b < 0) {
        -(q as i64)
    } else {
        q as i64
    }
}

/// The scaled quotient `a * FX_ONE / b`, truncated toward zero and clamped
/// to the ray-distance cap; a zero divisor saturates to the cap.
pub open spec fn spec_div_scaled(a: int, b: int) -> int {
    if b == 0 {
        if a >= 0 {
            DIST_CAP_FX as int
        } else {
            -(DIST_CAP_FX as int)
        }
    } else {
        let m = (spec_abs(a) * (FX_ONE as int)) / spec_abs(b);
        let c = if m > DIST_CAP_FX {
            DIST_CAP_FX as int
        } else {
            m
        };
        if (a >= 0) == (b >= 0) {
            c
        } else {
            -c
        }
    }
}

/// Divides two fixed-point scalars, yielding a clamped fixed-point quotient.
pub fn div_scaled(a: i64, b: i64) -> (r: i64)
    requires
        -8589934592 <= a <= 8589934592,
        -8589934592 <= b <= 8589934592,
    ensures
        r == spec_div_scaled(a as int, b as int),
        -DIST_CAP_FX <= r <= DIST_CAP_FX,
{
    if b == 0 {
        if a >= 0 {
            DIST_CAP_FX
        } else {
            -DIST_CAP_FX
        }
    } else {
        let ma: u64 = if a < 0 { (-a) as u64 } else { a as u64 };
        let mb: u64 = if b < 0 { (-b) as u64 } else { b as u64 };
        proof {
            assert(ma * 65536 <= 8589934592 * 65536) by (nonlinear_arith)
                requires
                    ma <= 8589934592,
            ;
        }
        let p: u64 = ma * (FX_ONE as u64);
        let q: u64 = p / mb;
        let c: u64 = if q > (DIST_CAP_FX as u64) {
            DIST_CAP_FX as u64
        } else {
            q
        };
        if (a < 0) != (b < 0) {
            -(c as i64)
        } else {
            c as i64
        }
    }
}

/// The integer square root, as a spec value.
pub open spec fn spec_isqrt(n: nat) -> nat
    decreases n,
{
    if n == 0 {
        0
    } else {
        let r = spec_isqrt((n - 1) as nat);
        if (r + 1) * (r + 1) <= n {
            r + 1
        } else {
            r
        }
    }
}

/// The integer square root is the unique `r` with `r^2 <= n < (r+1)^2`.
pub proof fn lemma_isqrt_bounds(n: nat)
    ensures
        spec_isqrt(n) * spec_isqrt(n) <= n,
        n < (spec_isqrt(n) + 1) * (spec_isqrt(n) + 1),
    decreases n,
{
    if n > 0 {
        lemma_isqrt_bounds((n - 1) as nat);
        let r = spec_isqrt((n - 1) as nat);
        assert(r * r <= n - 1 && (n - 1) < (r + 1) * (r + 1));
        if (r + 1) * (r + 1) <= n {
            assert(spec_isqrt(n) == r + 1);
            assert(n < (r + 2) * (r + 2)) by (nonlinear_arith)
                requires
                    n <= (r + 1) * (r + 1),
            ;
        } else {
            assert(spec_isqrt(n) == r);
            assert(r * r <= n);
            assert(n < (r + 1) * (r + 1));
        }
    } else {
        assert(spec_isqrt(n) == 0);
        assert(n < (0 + 1) * (0 + 1)) by (nonlinear_arith)
            requires
                n == 0,
        ;
    }
}

/// Any `r` within the square-root bounds for `n` is `spec_isqrt(n)`.
pub proof fn lemma_isqrt_unique(n: nat, r: nat)
    requires
        r * r <= n,
        n < (r + 1) * (r + 1),
    ensures
        r == spec_isqrt(n),
{
    lemma_isqrt_bounds(n);
    let s = spec_isqrt(n);
    assert(r == s) by (nonlinear_arith)
        requires
            r * r <= n < (r + 1) * (r + 1),
            s * s <= n < (s + 1) * (s + 1),
    ;
}

/// Computes the integer square root by bisection.
pub fn isqrt_u64(n: u64) -> (r: u64)
    ensures
        r as nat == spec_isqrt(n as nat),
        r * r <= n,
{
    let mut lo: u64 = 0;
    let mut hi: u64 = 4294967296;
    while lo + 1 < hi
        invariant
            lo < hi <= 4294967296,
            lo * lo <= n,
            n < (hi as int) * (hi as int),
        decreases hi - lo,
    {
        let mid: u64 = lo + (hi - lo) / 2;
        proof {
            assert(mid * mid < 18446744073709551616) by (nonlinear_arith)
                requires
                    mid < 4294967296,
            ;
        }
        if mid * mid <= n {
            lo = mid;
        } else {
            hi = mid;
        }
    }
    proof {
        lemma_isqrt_unique(n as nat, lo as nat);
    }
    lo
}

/// Brings an angle into `[0, TAU_FX)`; trigonometry and screen projection
/// read angles only up to whole turns.
pub fn reduce_angle(a: i64) -> (r: i64)
    requires
        -4 * ANGLE_LIMIT <= a <= 4 * ANGLE_LIMIT,
    ensures
        r == a as int % (TAU_FX as int),
        0 <= r < TAU_FX,
        (a - r) % (TAU_FX as int) == 0,
{
    let r = rem_euclid_fx(a, TAU_FX);
    proof {
        lemma_fundamental_div_mod(a as int, TAU_FX as int);
        lemma_mod_multiples_basic(a as int / (TAU_FX as int), TAU_FX as int);
    }
    r
}

/// The representation of `raw` nearest `facing` among all whole-turn shifts.
pub open spec fn spec_unwrap(raw: int, facing: int) -> int {
    raw - ((raw - facing + PI_FX) / (TAU_FX as int)) * (TAU_FX as int)
}

/// Resolves the whole-turn ambiguity of a bearing: the returned angle
/// differs from `raw` by whole turns and lies within a half turn of
/// `facing`.
pub fn unwrap_angle(raw: i64, facing: i64) -> (u: i64)
    requires
        -ANGLE_LIMIT <= raw <= ANGLE_LIMIT,
        -ANGLE_LIMIT <= facing <= ANGLE_LIMIT,
    ensures
        u == spec_unwrap(raw as int, facing as int),
        facing - PI_FX <= u < facing + PI_FX,
        (u - raw) % (TAU_FX as int) == 0,
{
    let d: i64 = raw - facing + PI_FX;
    let k: i64 = div_euclid_fx(d, TAU_FX);
    proof {
        lemma_fundamental_div_mod(d as int, TAU_FX as int);
        lemma_mod_bound(d as int, TAU_FX as int);
        lemma_mod_multiples_basic(-(k as int), TAU_FX as int);
    }
    raw - k * TAU_FX
}

/// Law: angle unwrapping is canonical.  For any raw bearing and current
/// facing, the unwrapped angle differs from the raw bearing by a whole
/// number of turns and lies within half a turn of the facing.
pub proof fn lemma_unwrap_canonical(raw: int, facing: int)
    ensures
        (spec_unwrap(raw, facing) - raw) % (TAU_FX as int) == 0,
        facing - PI_FX <= spec_unwrap(raw, facing) < facing + PI_FX,
{
    let d = raw - facing + PI_FX;
    let k = d / (TAU_FX as int);
    lemma_fundamental_div_mod(d, TAU_FX as int);
    lemma_mod_bound(d, TAU_FX as int);
    lemma_mod_multiples_basic(-k, TAU_FX as int);
}

/// The sine approximation on the half turn `[0, PI_FX]`, as a spec value.
pub open spec fn spec_sin_half(x: int) -> int {
    let t = x * (PI_FX - x);
    (16 * t * FX_ONE) / (5 * (PI_FX as int) * (PI_FX as int) - 4 * t)
}

/// Computes the sine on `[0, PI_FX]` by a rational approximation that is
/// exact at 0, at a quarter turn and at a half turn.
fn sin_half(x: i64) -> (r: i64)
    requires
        0 <= x <= PI_FX,
    ensures
        r == spec_sin_half(x as int),
        0 <= r <= FX_ONE,
{
    let xu: u64 = x as u64;
    let yu: u64 = (PI_FX - x) as u64;
    proof {
        assert(xu * yu <= 205888 * 205888 && 4 * (xu * yu) <= 205888 * 205888)
            by (nonlinear_arith)
            requires
                xu <= 205888,
                yu <= 205888,
                xu + yu == 205888,
        ;
    }
    let t: u64 = xu * yu;
    proof {
        assert(16 * t <= 169559474176) by (nonlinear_arith)
            requires
                4 * t <= 42389868544,
        ;
        assert((16 * t) * 65536 <= 169559474176 * 65536) by (nonlinear_arith)
            requires
                16 * t <= 169559474176,
        ;
    }
    let num: u64 = 16 * t * (FX_ONE as u64);
    let den: u64 = 5 * (PI_FX as u64) * (PI_FX as u64) - 4 * t;
    let q: u64 = num / den;
    proof {
        assert(num <= (den as int) * 65536) by (nonlinear_arith)
            requires
                num == 16 * (t as int) * 65536,
                den == 5 * 205888 * 205888 - 4 * (t as int),
                4 * (t as int) <= 205888 * 205888,
        ;
        vstd::arithmetic::div_mod::lemma_div_is_ordered(
            num as int,
            (den as int) * 65536,
            den as int,
        );
        vstd::arithmetic::div_mod::lemma_div_multiples_vanish(65536, den as int);
        assert((den as int) * 65536 == 65536 * (den as int)) by (nonlinear_arith);
    }
    q as i64
}

/// The sine of a fixed-point angle, as a spec value.
pub open spec fn spec_sin_fx(a: int) -> int {
    let m = a % (TAU_FX as int);
    if m <= PI_FX {
        spec_sin_half(m)
    } else {
        -spec_sin_half(m - PI_FX)
    }
}

/// The cosine of a fixed-point angle, as a spec value.
pub open spec fn spec_cos_fx(a: int) -> int {
    spec_sin_fx(a + HALF_PI_FX)
}

/// The sine of an angle, in fixed-point units of one.
pub fn sin_fx(a: i64) -> (r: i64)
    requires
        -2 * ANGLE_LIMIT <= a <= 2 * ANGLE_LIMIT,
    ensures
        r == spec_sin_fx(a as int),
        -FX_ONE <= r <= FX_ONE,
{
    let m = reduce_angle(a);
    if m <= PI_FX {
        sin_half(m)
    } else {
        -sin_half(m - PI_FX)
    }
}

/// The cosine of an angle, in fixed-point units of one.
pub fn cos_fx(a: i64) -> (r: i64)
    requires
        -ANGLE_LIMIT <= a <= ANGLE_LIMIT,
    ensures
        r == spec_cos_fx(a as int),
        -FX_ONE <= r <= FX_ONE,
{
    sin_fx(a + HALF_PI_FX)
}

/// The arc-tangent approximation on `[0, FX_ONE]`, as a spec value.
pub open spec fn spec_atan_unit(z: int) -> int {
    ((QUARTER_PI_FX as int) * z + (17892 * z * (FX_ONE - z)) / (FX_ONE as int)) / (
    FX_ONE as int)
}

/// Computes the arc-tangent of a ratio in `[0, 1]`, exact at 0 and 1.
fn atan_unit(z: i64) -> (r: i64)
    requires
        0 <= z <= FX_ONE,
    ensures
        r == spec_atan_unit(z as int),
        0 <= r <= 56000,
{
    let zu: u64 = z as u64;
    let wu: u64 = (FX_ONE - z) as u64;
    proof {
        assert(zu * wu <= 65536 * 65536 && 4 * (zu * wu) <= 65536 * 65536)
            by (nonlinear_arith)
            requires
                zu <= 65536,
                wu <= 65536,
                zu + wu == 65536,
        ;
        assert(17892 * (zu * wu) <= 17892 * 1073741824) by (nonlinear_arith)
            requires
                4 * (zu * wu) <= 4294967296,
        ;
        assert(17892 * zu <= 17892 * 65536) by (nonlinear_arith)
            requires
                zu <= 65536,
        ;
        assert((17892 * zu) * wu == 17892 * (zu * wu)) by (nonlinear_arith);
    }
    let t: u64 = 17892 * zu * wu;
    let c: u64 = t / (FX_ONE as u64);
    proof {
        vstd::arithmetic::div_mod::lemma_div_is_ordered(
            t as int,
            (17892 * 1073741824) as int,
            65536,
        );
        assert((QUARTER_PI_FX as u64) * zu <= 51472 * 65536) by (nonlinear_arith)
            requires
                zu <= 65536,
                QUARTER_PI_FX == 51472,
        ;
    }
    let s: u64 = (QUARTER_PI_FX as u64) * zu + c;
    let r: u64 = s / (FX_ONE as u64);
    proof {
        vstd::arithmetic::div_mod::lemma_div_is_ordered(
            s as int,
            (51472 * 65536 + (17892 * 1073741824) / 65536) as int,
            65536,
        );
    }
    r as i64
}

/// The arc-tangent of `y / x` honoring quadrant signs, as a spec value;
/// positive `y` yields a positive angle, in `[-PI_FX, PI_FX]`.
pub open spec fn spec_atan2_fx(y: int, x: int) -> int {
    let ay = spec_abs(y);
    let ax = spec_abs(x);
    let base = if ax >= ay {
        if ax == 0 {
            0
        } else {
            spec_atan_unit((ay * FX_ONE) / ax)
        }
    } else {
        HALF_PI_FX - spec_atan_unit((ax * FX_ONE) / ay)
    };
    let mag = if x >= 0 {
        base
    } else {
        PI_FX - base
    };
    if y >= 0 {
        mag
    } else {
        -mag
    }
}

/// The angle of the vector `(x, y)`, in `[-PI_FX, PI_FX]`.
pub fn atan2_fx(y: i64, x: i64) -> (r: i64)
    requires
        -2147483648 <= y <= 2147483648,
        -2147483648 <= x <= 2147483648,
    ensures
        r == spec_atan2_fx(y as int, x as int),
        -PI_FX <= r <= PI_FX,
{
    let ay: u64 = if y < 0 { (-y) as u64 } else { y as u64 };
    let ax: u64 = if x < 0 { (-x) as u64 } else { x as u64 };
    let base: i64 = if ax >= ay {
        if ax == 0 {
            0
        } else {
            proof {
                assert(ay * 65536 <= ax * 65536) by (nonlinear_arith)
                    requires
                        ay <= ax,
                ;
                assert((ay * 65536) / (ax as int) <= 65536) by (nonlinear_arith)
                    requires
                        ay * 65536 <= ax * 65536,
                        0 < ax,
                ;
                assert(ay * 65536 <= 2147483648 * 65536) by (nonlinear_arith)
                    requires
                        ay <= 2147483648,
                ;
            }
            let z: u64 = (ay * (FX_ONE as u64)) / ax;
            atan_unit(z as i64)
        }
    } else {
        proof {
            assert(ax * 65536 <= ay * 65536) by (nonlinear_arith)
                requires
                    ax <= ay,
            ;
            assert((ax * 65536) / (ay as int) <= 65536) by (nonlinear_arith)
                requires
                    ax * 65536 <= ay * 65536,
                    0 < ay,
            ;
            assert(ax * 65536 <= 2147483648 * 65536) by (nonlinear_arith)
                requires
                    ax <= 2147483648,
            ;
        }
        let z: u64 = (ax * (FX_ONE as u64)) / ay;
        HALF_PI_FX - atan_unit(z as i64)
    };
    let mag: i64 = if x >= 0 { base } else { PI_FX - base };
    if y >= 0 {
        mag
    } else {
        -mag
    }
}

/// The largest whole-cell coordinate at or below `v`, as a spec value.
pub open spec fn spec_floor_fx(v: int) -> int {
    (v / (FX_ONE as int)) * (FX_ONE as int)
}

/// The smallest whole-cell coordinate at or above `v`, as a spec value.
pub open spec fn spec_ceil_fx(v: int) -> int {
    ((v + FX_ONE - 1) / (FX_ONE as int)) * (FX_ONE as int)
}

/// Rounds a fixed-point coordinate down to a grid line.
pub fn floor_fx(v: i64) -> (r: i64)
    requires
        -ANGLE_LIMIT <= v <= ANGLE_LIMIT,
    ensures
        r == spec_floor_fx(v as int),
        v - FX_ONE < r <= v,
{
    let q = div_euclid_fx(v, FX_ONE);
    proof {
        lemma_fundamental_div_mod(v as int, FX_ONE as int);
        lemma_mod_bound(v as int, FX_ONE as int);
        assert((v as int / 65536) * 65536 == 65536 * (v as int / 65536)) by (nonlinear_arith);
    }
    q * FX_ONE
}

/// Rounds a fixed-point coordinate up to a grid line.
pub fn ceil_fx(v: i64) -> (r: i64)
    requires
        -ANGLE_LIMIT <= v <= ANGLE_LIMIT,
    ensures
        r == spec_ceil_fx(v as int),
        v <= r < v + FX_ONE,
{
    let w = v + FX_ONE - 1;
    let q = div_euclid_fx(w, FX_ONE);
    proof {
        lemma_fundamental_div_mod(w as int, FX_ONE as int);
        lemma_mod_bound(w as int, FX_ONE as int);
        assert((w as int / 65536) * 65536 == 65536 * (w as int / 65536)) by (nonlinear_arith);
    }
    q * FX_ONE
}

/// The sum of two ray-march coordinates, clamped to twice the distance
/// cap, as a spec value.
pub open spec fn spec_cap_add(a: int, b: int) -> int {
    let s = a + b;
    if s > 2 * DIST_CAP_FX {
        2 * (DIST_CAP_FX as int)
    } else if s < -2 * DIST_CAP_FX {
        -2 * (DIST_CAP_FX as int)
    } else {
        s
    }
}

/// Adds two ray-march coordinates, saturating at twice the distance cap.
pub fn cap_add(a: i64, b: i64) -> (r: i64)
    requires
        -4 * DIST_CAP_FX <= a <= 4 * DIST_CAP_FX,
        -4 * DIST_CAP_FX <= b <= 4 * DIST_CAP_FX,
    ensures
        r == spec_cap_add(a as int, b as int),
        -2 * DIST_CAP_FX <= r <= 2 * DIST_CAP_FX,
{
    let s = a + b;
    if s > 2 * DIST_CAP_FX {
        2 * DIST_CAP_FX
    } else if s < -2 * DIST_CAP_FX {
        -2 * DIST_CAP_FX
    } else {
        s
    }
}

/// The tangent of a fixed-point angle as a clamped scaled quotient.
pub open spec fn spec_tan_fx(a: int) -> int {
    spec_div_scaled(spec_sin_fx(a), spec_cos_fx(a))
}

/// The tangent of an angle; vertical angles saturate to the distance cap.
pub fn tan_fx(a: i64) -> (r: i64)
    requires
        -ANGLE_LIMIT <= a <= ANGLE_LIMIT,
    ensures
        r == spec_tan_fx(a as int),
        -DIST_CAP_FX <= r <= DIST_CAP_FX,
{
    let s = sin_fx(a);
    let c = cos_fx(a);
    div_scaled(s, c)
}

} // verus!
