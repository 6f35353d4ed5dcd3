//! Fixed-point plane geometry: 2D vectors in milli-units, an exact integer
//! square root, and direction normalization with proved length tolerance.

use vstd::arithmetic::div_mod::lemma_fundamental_div_mod;
use vstd::arithmetic::div_mod::lemma_mod_bound;
use vstd::prelude::*;

verus! {

/// Fixed-point scale: one game unit is `MILLI` stored steps.
pub const MILLI: i64 = 1000;

/// A 2D vector (or point) in milli-units.
#[derive(Clone, Copy, Debug, PartialEq, Eq, Structural)]
pub struct Vec2 {
    pub x: i64,
    pub y: i64,
}

/// The mathematical value of a `Vec2`: the same pair over unbounded integers.
pub ghost struct Vec2V {
    pub x: int,
    pub y: int,
}

impl View for Vec2 {
    type V = Vec2V;

    open spec fn view(&self) -> Vec2V {
        Vec2V { x: self.x as int, y: self.y as int }
    }
}

/// Absolute value over unbounded integers.
pub open spec fn abs_i(a: int) -> int {
    if a >= 0 {
        a
    } else {
        -a
    }
}

/// Squared Euclidean length of `v`, exact.
pub open spec fn norm_sq(v: Vec2V) -> int {
    v.x * v.x + v.y * v.y
}

/// The integer square root: the largest `r` with `r * r <= s` (0 for `s <= 0`).
pub open spec fn isqrt_spec(s: int) -> int
    decreases s,
{
    if s <= 0 {
        0
    } else {
        let r = isqrt_spec(s - 1);
        if (r + 1) * (r + 1) <= s {
            r + 1
        } else {
            r
        }
    }
}

pub proof fn lemma_isqrt_bounds(s: int)
    requires
        s >= 0,
    ensures
        0 <= isqrt_spec(s),
        isqrt_spec(s) * isqrt_spec(s) <= s,
        s < (isqrt_spec(s) + 1) * (isqrt_spec(s) + 1),
    decreases s,
{
    if s > 0 {
        lemma_isqrt_bounds(s - 1);
        let r = isqrt_spec(s - 1);
        if (r + 1) * (r + 1) <= s {
            assert((r + 2) * (r + 2) == (r + 1) * (r + 1) + 2 * r + 3) by (nonlinear_arith);
        }
    }
}

pub proof fn lemma_square_monotone(a: int, b: int)
    requires
        0 <= a <= b,
    ensures
        a * a <= b * b,
{
    assert(a * a <= b * b) by (nonlinear_arith)
        requires
            0 <= a <= b,
    ;
}

/// Any `n` that brackets `s` between consecutive squares is the integer root.
pub proof fn lemma_isqrt_unique(s: int, n: int)
    requires
        0 <= n,
        n * n <= s,
        s < (n + 1) * (n + 1),
    ensures
        n == isqrt_spec(s),
{
    lemma_isqrt_bounds(s);
    let m = isqrt_spec(s);
    if n < m {
        lemma_square_monotone(n + 1, m);
        assert(false);
    }
    if m < n {
        lemma_square_monotone(m + 1, n);
        assert(false);
    }
}

/// Exact integer square root by linear search from below.
pub fn isqrt(s: i64) -> (r: i64)
    requires
        0 <= s <= 4_000_000,
    ensures
        r == isqrt_spec(s as int),
        0 <= r <= 2000,
        r * r <= s < (r + 1) * (r + 1),
{
    let mut r: i64 = 0;
    let mut next: i64 = 1;
    while next <= s
        invariant
            0 <= r <= 2000,
            r * r <= s <= 4_000_000,
            next == (r + 1) * (r + 1),
        decreases 2001 - r,
    {
        r = r + 1;
        assert(r <= 2000) by {
            if r > 2000 {
                assert(r * r > 4_000_000) by (nonlinear_arith)
                    requires
                        r >= 2001,
                ;
            }
        }
        assert((r + 1) * (r + 1) <= 4_008_004) by (nonlinear_arith)
            requires
                0 <= r <= 2000,
        ;
        next = (r + 1) * (r + 1);
    }
    proof {
        lemma_isqrt_unique(s as int, r as int);
    }
    r
}

/// Lower bound on the squared length of a stored direction; a normalized
/// direction has squared length within [`DIR_SQ_MIN`, `DIR_SQ_MAX`], a window
/// around `MILLI * MILLI` that fixed-point rounding cannot leave.
pub const DIR_SQ_MIN: i64 = 996_900;

/// Upper bound on the squared length of a stored direction.
pub const DIR_SQ_MAX: i64 = 1_020_000;

/// Largest magnitude a component of a normalized direction can have.
pub const DIR_ABS_MAX: i64 = 1009;

/// Smallest squared length `normalize` accepts; smaller vectors carry too
/// little direction to scale faithfully.
pub const NORMALIZE_MIN_SQ: i64 = 10_000;

/// Largest component magnitude `normalize` accepts.
pub const NORMALIZE_ABS_MAX: i64 = 1100;

/// A well-formed direction: unit length within fixed-point tolerance.
pub open spec fn dir_wf(d: Vec2V) -> bool {
    &&& DIR_SQ_MIN <= norm_sq(d) <= DIR_SQ_MAX
    &&& -(DIR_ABS_MAX as int) <= d.x <= DIR_ABS_MAX as int
    &&& -(DIR_ABS_MAX as int) <= d.y <= DIR_ABS_MAX as int
}

/// The direction of `v` scaled to length `MILLI`, rounded toward zero
/// in each component.
pub open spec fn normalize_spec(v: Vec2V) -> Vec2V {
    let n = isqrt_spec(norm_sq(v));
    let p = (abs_i(v.x) * (MILLI as int)) / n;
    let q = (abs_i(v.y) * (MILLI as int)) / n;
    Vec2V {
        x: if v.x >= 0 {
            p
        } else {
            -p
        },
        y: if v.y >= 0 {
            q
        } else {
            -q
        },
    }
}

/// Division facts for a nonnegative numerator and positive divisor.
pub proof fn lemma_div_facts(num: int, n: int)
    requires
        0 <= num,
        0 < n,
    ensures
        0 <= num / n,
        (num / n) * n <= num,
        num < (num / n + 1) * n,
{
    lemma_fundamental_div_mod(num, n);
    lemma_mod_bound(num, n);
    let p = num / n;
    assert((p + 1) * n == p * n + n) by (nonlinear_arith);
    assert(p * n == n * p) by (nonlinear_arith);
    if p < 0 {
        assert(n * p <= -n) by (nonlinear_arith)
            requires
                0 < n,
                p <= -1,
        ;
        assert(false);
    }
}

/// Normalizing a vector of squared length at least `NORMALIZE_MIN_SQ`
/// yields a well-formed direction: its squared length stays within the
/// fixed tolerance window around `MILLI * MILLI`.
pub proof fn lemma_normalize_tolerance(v: Vec2V)
    requires
        norm_sq(v) >= NORMALIZE_MIN_SQ,
        -(NORMALIZE_ABS_MAX as int) <= v.x <= NORMALIZE_ABS_MAX as int,
        -(NORMALIZE_ABS_MAX as int) <= v.y <= NORMALIZE_ABS_MAX as int,
    ensures
        dir_wf(normalize_spec(v)),
{
    let a = abs_i(v.x);
    let b = abs_i(v.y);
    let s = norm_sq(v);
    assert(a * a == v.x * v.x) by {
        if v.x < 0 {
            assert((-v.x) * (-v.x) == v.x * v.x) by (nonlinear_arith);
        }
    }
    assert(b * b == v.y * v.y) by {
        if v.y < 0 {
            assert((-v.y) * (-v.y) == v.y * v.y) by (nonlinear_arith);
        }
    }
    let n = isqrt_spec(s);
    lemma_isqrt_bounds(s);
    assert(n >= 100) by {
        if n < 100 {
            lemma_square_monotone(n + 1, 100);
            assert(false);
        }
    }
    let p = (a * 1000) / n;
    let q = (b * 1000) / n;
    lemma_div_facts(a * 1000, n);
    lemma_div_facts(b * 1000, n);

    // Upper bound: (p^2 + q^2) n^2 <= s * 10^6 <= (n^2 + 2n) * 10^6.
    assert(p * p * (n * n) <= (a * a) * 1_000_000) by (nonlinear_arith)
        requires
            0 <= p,
            0 < n,
            p * n <= a * 1000,
            0 <= a,
    ;
    assert(q * q * (n * n) <= (b * b) * 1_000_000) by (nonlinear_arith)
        requires
            0 <= q,
            0 < n,
            q * n <= b * 1000,
            0 <= b,
    ;
    assert((p * p + q * q) * (n * n) <= s * 1_000_000) by (nonlinear_arith)
        requires
            p * p * (n * n) <= (a * a) * 1_000_000,
            q * q * (n * n) <= (b * b) * 1_000_000,
            s == a * a + b * b,
    ;
    assert(s <= n * n + 2 * n) by (nonlinear_arith)
        requires
            s < (n + 1) * (n + 1),
    ;
    assert(p * p + q * q <= 1_020_000) by (nonlinear_arith)
        requires
            (p * p + q * q) * (n * n) <= s * 1_000_000,
            s <= n * n + 2 * n,
            n >= 100,
    ;

    // Lower bound: s * 10^6 < (p^2 + q^2 + 2p + 2q + 2) n^2 and n^2 <= s.
    assert((a * a) * 1_000_000 < (p + 1) * (p + 1) * (n * n)) by (nonlinear_arith)
        requires
            0 <= a,
            0 < n,
            a * 1000 < (p + 1) * n,
            0 <= p,
    ;
    assert((b * b) * 1_000_000 < (q + 1) * (q + 1) * (n * n)) by (nonlinear_arith)
        requires
            0 <= b,
            0 < n,
            b * 1000 < (q + 1) * n,
            0 <= q,
    ;
    assert(s * 1_000_000 < (p * p + q * q + 2 * p + 2 * q + 2) * (n * n)) by (nonlinear_arith)
        requires
            (a * a) * 1_000_000 < (p + 1) * (p + 1) * (n * n),
            (b * b) * 1_000_000 < (q + 1) * (q + 1) * (n * n),
            s == a * a + b * b,
    ;
    assert(1_000_000 < p * p + q * q + 2 * p + 2 * q + 2) by (nonlinear_arith)
        requires
            s * 1_000_000 < (p * p + q * q + 2 * p + 2 * q + 2) * (n * n),
            n * n <= s,
            n > 0,
    ;
    assert((a + b) * (a + b) <= 2 * s) by (nonlinear_arith)
        requires
            s == a * a + b * b,
    ;
    assert(2 * (a + b) <= 3 * n + 2) by (nonlinear_arith)
        requires
            (a + b) * (a + b) <= 2 * s,
            s <= n * n + 2 * n,
            0 <= a,
            0 <= b,
            n >= 100,
    ;
    assert(2 * (p + q) <= 3020) by (nonlinear_arith)
        requires
            p * n <= a * 1000,
            q * n <= b * 1000,
            2 * (a + b) <= 3 * n + 2,
            n >= 100,
            0 <= p,
            0 <= q,
    ;
    assert(p * p + q * q >= 996_900);

    // Components are bounded by the squared-length window.
    assert(p <= 1009) by (nonlinear_arith)
        requires
            p * p + q * q <= 1_020_000,
            0 <= p,
            0 <= q,
    ;
    assert(q <= 1009) by (nonlinear_arith)
        requires
            p * p + q * q <= 1_020_000,
            0 <= p,
            0 <= q,
    ;
    let d = normalize_spec(v);
    assert(d.x * d.x == p * p) by {
        if v.x < 0 {
            assert((-p) * (-p) == p * p) by (nonlinear_arith);
        }
    }
    assert(d.y * d.y == q * q) by {
        if v.y < 0 {
            assert((-q) * (-q) == q * q) by (nonlinear_arith);
        }
    }
}

/// Scale `v` to a direction of length `MILLI` within tolerance, keeping
/// each component's sign and rounding magnitudes toward zero.
pub fn normalize(v: Vec2) -> (r: Vec2)
    requires
        norm_sq(v@) >= NORMALIZE_MIN_SQ,
        -NORMALIZE_ABS_MAX <= v.x <= NORMALIZE_ABS_MAX,
        -NORMALIZE_ABS_MAX <= v.y <= NORMALIZE_ABS_MAX,
    ensures
        r@ == normalize_spec(v@),
        dir_wf(r@),
{
    proof {
        lemma_normalize_tolerance(v@);
    }
    let ax: i64 = if v.x >= 0 {
        v.x
    } else {
        -v.x
    };
    let ay: i64 = if v.y >= 0 {
        v.y
    } else {
        -v.y
    };
    assert(ax * ax == v.x * v.x && 0 <= ax * ax <= 1_210_000) by (nonlinear_arith)
        requires
            -1100 <= v.x <= 1100,
            ax == abs_i(v.x as int),
    ;
    assert(ay * ay == v.y * v.y && 0 <= ay * ay <= 1_210_000) by (nonlinear_arith)
        requires
            -1100 <= v.y <= 1100,
            ay == abs_i(v.y as int),
    ;
    let s: i64 = ax * ax + ay * ay;
    let n: i64 = isqrt(s);
    proof {
        lemma_isqrt_bounds(s as int);
        if n < 100 {
            lemma_square_monotone(n + 1, 100);
        }
    }
    let px: i64 = ax * 1000 / n;
    let py: i64 = ay * 1000 / n;
    proof {
        lemma_div_facts(ax * 1000, n as int);
        lemma_div_facts(ay * 1000, n as int);
        assert(px * n <= ax * 1000 && 0 <= px ==> px <= 11_000) by (nonlinear_arith)
            requires
                n >= 100,
                ax * 1000 <= 1_100_000,
        ;
        assert(py * n <= ay * 1000 && 0 <= py ==> py <= 11_000) by (nonlinear_arith)
            requires
                n >= 100,
                ay * 1000 <= 1_100_000,
        ;
    }
    let rx: i64 = if v.x >= 0 {
        px
    } else {
        -px
    };
    let ry: i64 = if v.y >= 0 {
        py
    } else {
        -py
    };
    Vec2 { x: rx, y: ry }
}

} // verus!
