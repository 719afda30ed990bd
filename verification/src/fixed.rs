//! Saturating decimal fixed-point arithmetic.
//!
//! A coordinate is an `i64` carrying six decimal places: the value `v` stands
//! for the real number `v / 1_000_000`.  Every operation clamps its result
//! into `[-FX_MAX, FX_MAX]`, so arithmetic is total on in-range operands and
//! extreme parameters degrade to finite geometry instead of failing.
//! Products are truncated toward zero, which makes negation distribute
//! exactly over multiplication — the mirror symmetry of the leaflet shapes
//! rests on that.

use vstd::arithmetic::div_mod::{
    lemma_div_by_multiple, lemma_div_is_ordered, lemma_div_nonincreasing, lemma_div_pos_is_pos,
};
use vstd::arithmetic::mul::{
    lemma_mul_inequality, lemma_mul_strict_inequality, lemma_mul_upper_bound,
};
use vstd::prelude::*;

verus! {

/// One unit: the fixed-point image of the real number 1.
pub const FX_ONE: i64 = 1_000_000;

/// The fixed-point image of one half.
pub const FX_HALF: i64 = 500_000;

/// Saturation bound; every value the library stores lies in `[-FX_MAX, FX_MAX]`.
pub const FX_MAX: i64 = 2_000_000_000_000;

/// Whether a mathematical integer is within the representable range.
pub open spec fn fx_ok(a: int) -> bool {
    -(FX_MAX as int) <= a <= FX_MAX as int
}

/// Clamp an unbounded result into the representable range.
pub open spec fn sat_fx(a: int) -> int {
    if a > FX_MAX as int {
        FX_MAX as int
    } else if a < -(FX_MAX as int) {
        -(FX_MAX as int)
    } else {
        a
    }
}

/// Magnitude of a mathematical integer.
pub open spec fn abs_i(a: int) -> int {
    if a < 0 {
        -a
    } else {
        a
    }
}

/// Saturating fixed-point addition.
pub open spec fn fx_add(a: int, b: int) -> int {
    sat_fx(a + b)
}

/// Saturating fixed-point subtraction.
pub open spec fn fx_sub(a: int, b: int) -> int {
    sat_fx(a - b)
}

/// Saturating fixed-point multiplication.  The magnitude of the exact product
/// is scaled down by `FX_ONE` and truncated, then the sign is reapplied, so
/// `fx_mul(-a, b) == -fx_mul(a, b)` holds exactly.
pub open spec fn fx_mul(a: int, b: int) -> int {
    if (a < 0) == (b < 0) {
        sat_fx(abs_i(a) * abs_i(b) / (FX_ONE as int))
    } else {
        sat_fx(-(abs_i(a) * abs_i(b) / (FX_ONE as int)))
    }
}

/// Saturating addition, clamped into the representable range.
pub fn fadd(a: i64, b: i64) -> (r: i64)
    requires
        fx_ok(a as int),
        fx_ok(b as int),
    ensures
        r as int == fx_add(a as int, b as int),
        fx_ok(r as int),
{
    let s: i64 = a + b;
    if s > FX_MAX {
        FX_MAX
    } else if s < -FX_MAX {
        -FX_MAX
    } else {
        s
    }
}

/// Saturating subtraction, clamped into the representable range.
pub fn fsub(a: i64, b: i64) -> (r: i64)
    requires
        fx_ok(a as int),
        fx_ok(b as int),
    ensures
        r as int == fx_sub(a as int, b as int),
        fx_ok(r as int),
{
    let s: i64 = a - b;
    if s > FX_MAX {
        FX_MAX
    } else if s < -FX_MAX {
        -FX_MAX
    } else {
        s
    }
}

/// Saturating fixed-point multiplication: `(a / FX_ONE) * (b / FX_ONE)`,
/// truncated toward zero and clamped.
pub fn fmul(a: i64, b: i64) -> (r: i64)
    requires
        fx_ok(a as int),
        fx_ok(b as int),
    ensures
        r as int == fx_mul(a as int, b as int),
        fx_ok(r as int),
{
    let am: u128 = (if a < 0 { -a } else { a }) as u128;
    let bm: u128 = (if b < 0 { -b } else { b }) as u128;
    proof {
        lemma_mul_upper_bound(am as int, FX_MAX as int, bm as int, FX_MAX as int);
        lemma_div_is_ordered(
            am as int * bm as int,
            FX_MAX as int * FX_MAX as int,
            FX_ONE as int,
        );
    }
    let q: u128 = (am * bm) / (FX_ONE as u128);
    let qs: i64 = if q > FX_MAX as u128 {
        FX_MAX
    } else {
        q as i64
    };
    if (a < 0) != (b < 0) {
        -qs
    } else {
        qs
    }
}

/// Quotient of a non-negative value by a positive integer count (not by a
/// fixed-point number): exact floor division, no scaling.
pub fn fdiv_n(a: i64, n: i64) -> (r: i64)
    requires
        0 <= a,
        1 <= n,
    ensures
        r as int == a as int / n as int,
        0 <= r <= a,
{
    proof {
        lemma_div_nonincreasing(a as int, n as int);
        lemma_div_pos_is_pos(a as int, n as int);
    }
    ((a as u64) / (n as u64)) as i64
}

/// The fixed-point ratio `i / n` for integer counts `i < n`, rounded down;
/// always on the unit interval, strictly below one.
pub fn frac_of(i: u32, n: u32) -> (r: i64)
    requires
        i < n,
    ensures
        r as int == i as int * FX_ONE as int / (n as int),
        0 <= r < FX_ONE,
{
    proof {
        lemma_div_pos_is_pos(i as int * FX_ONE as int, n as int);
        lemma_mul_strict_inequality(i as int, n as int, FX_ONE as int);
        vstd::arithmetic::div_mod::lemma_multiply_divide_lt(
            i as int * FX_ONE as int,
            n as int,
            FX_ONE as int,
        );
    }
    (((i as u64) * (FX_ONE as u64)) / (n as u64)) as i64
}

/// Multiplication on the unit interval stays on the unit interval and never
/// exceeds either factor.
pub proof fn lemma_fx_mul_unit(a: int, b: int)
    requires
        0 <= a <= FX_ONE as int,
        0 <= b <= FX_ONE as int,
    ensures
        0 <= fx_mul(a, b) <= FX_ONE as int,
        fx_mul(a, b) <= a,
{
    lemma_mul_upper_bound(a, FX_ONE as int, b, FX_ONE as int);
    lemma_div_is_ordered(a * b, FX_ONE as int * FX_ONE as int, FX_ONE as int);
    lemma_div_by_multiple(FX_ONE as int, FX_ONE as int);
    lemma_mul_inequality(b, FX_ONE as int, a);
    vstd::arithmetic::mul::lemma_mul_is_commutative(a, b);
    vstd::arithmetic::mul::lemma_mul_is_commutative(FX_ONE as int, a);
    lemma_div_is_ordered(a * b, a * FX_ONE as int, FX_ONE as int);
    lemma_div_by_multiple(a, FX_ONE as int);
    if a * b > 0 {
        lemma_div_pos_is_pos(a * b, FX_ONE as int);
    }
}

/// The magnitude of a product is at most the product of the operand
/// magnitudes, scaled down by one unit.
pub proof fn lemma_fx_mul_mag(a: int, b: int, am: int, bm: int)
    requires
        abs_i(a) <= am,
        abs_i(b) <= bm,
    ensures
        abs_i(fx_mul(a, b)) <= am * bm / (FX_ONE as int),
        0 <= am * bm / (FX_ONE as int),
{
    lemma_mul_upper_bound(abs_i(a), am, abs_i(b), bm);
    lemma_div_is_ordered(abs_i(a) * abs_i(b), am * bm, FX_ONE as int);
    lemma_div_pos_is_pos(abs_i(a) * abs_i(b), FX_ONE as int);
    lemma_div_pos_is_pos(am * bm, FX_ONE as int);
}

/// Scaling a non-negative value by a factor on the unit interval never grows
/// it.
pub proof fn lemma_fx_mul_le_left(a: int, b: int)
    requires
        0 <= a,
        0 <= b <= FX_ONE as int,
    ensures
        0 <= fx_mul(a, b) <= a,
{
    lemma_mul_inequality(b, FX_ONE as int, a);
    vstd::arithmetic::mul::lemma_mul_is_commutative(b, a);
    vstd::arithmetic::mul::lemma_mul_is_commutative(FX_ONE as int, a);
    lemma_div_is_ordered(a * b, a * FX_ONE as int, FX_ONE as int);
    lemma_div_by_multiple(a, FX_ONE as int);
    lemma_div_pos_is_pos(a * b, FX_ONE as int);
}

/// Negating one factor negates the product exactly: the magnitude is
/// truncated before the sign is reapplied, and the clamp is symmetric.
pub proof fn lemma_fx_mul_neg_left(a: int, b: int)
    ensures
        fx_mul(-a, b) == -fx_mul(a, b),
{
    assert(abs_i(-a) == abs_i(a));
    if a == 0 {
        assert(abs_i(a) * abs_i(b) == 0) by (nonlinear_arith)
            requires abs_i(a) == 0;
        assert(0int / (FX_ONE as int) == 0) by (nonlinear_arith);
    }
}

/// The integer square root, floor of the real square root.
pub open spec fn sqrt_floor(n: nat) -> nat
    decreases n,
{
    if n == 0 {
        0
    } else {
        let r = sqrt_floor((n - 1) as nat);
        if (r + 1) * (r + 1) <= n {
            r + 1
        } else {
            r
        }
    }
}

/// `sqrt_floor(n)` is the largest integer whose square does not exceed `n`.
pub proof fn lemma_sqrt_floor_bounds(n: nat)
    ensures
        sqrt_floor(n) * sqrt_floor(n) <= n,
        n < (sqrt_floor(n) + 1) * (sqrt_floor(n) + 1),
    decreases n,
{
    if n == 0 {
        assert(sqrt_floor(0) == 0);
        assert((sqrt_floor(0) + 1) * (sqrt_floor(0) + 1) == 1) by (nonlinear_arith)
            requires sqrt_floor(0) == 0;
    } else {
        lemma_sqrt_floor_bounds((n - 1) as nat);
        let p = sqrt_floor((n - 1) as nat);
        let s = sqrt_floor(n);
        assert(s == if (p + 1) * (p + 1) <= n {
            p + 1
        } else {
            p
        });
        if (p + 1) * (p + 1) <= n {
            assert(s == p + 1);
            assert(s * s <= n);
            assert(n <= (p + 1) * (p + 1));
            assert((p + 1) * (p + 1) < (p + 2) * (p + 2)) by (nonlinear_arith);
            assert(n < (s + 1) * (s + 1));
        } else {
            assert(s == p);
            assert(s * s <= n);
            assert(n < (s + 1) * (s + 1));
        }
    }
}

/// Any integer bracketed by squares around `n` is `sqrt_floor(n)`.
pub proof fn lemma_sqrt_floor_unique(n: nat, r: nat)
    requires
        r * r <= n,
        n < (r + 1) * (r + 1),
    ensures
        r == sqrt_floor(n),
{
    let s = sqrt_floor(n);
    lemma_sqrt_floor_bounds(n);
    if r < s {
        assert((r + 1) * (r + 1) <= s * s) by (nonlinear_arith)
            requires r + 1 <= s;
    }
    if s < r {
        assert((s + 1) * (s + 1) <= r * r) by (nonlinear_arith)
            requires s + 1 <= r;
    }
}

/// Fixed-point square root of a non-negative value:
/// `sqrt(v / FX_ONE) * FX_ONE`, rounded down.
pub open spec fn fx_sqrt_s(y: int) -> int {
    if y <= 0 {
        0
    } else {
        sqrt_floor((y * FX_ONE as int) as nat) as int
    }
}

/// Square root on the unit interval, exact floor in fixed-point units.
pub fn fsqrt(x: i64) -> (r: i64)
    requires
        0 <= x <= FX_ONE,
    ensures
        r as int == fx_sqrt_s(x as int),
        0 <= r <= FX_ONE,
{
    proof {
        lemma_mul_inequality(x as int, FX_ONE as int, FX_ONE as int);
        assert(1_000_000int * 1_000_000int < 1_000_001int * 1_000_001int) by (nonlinear_arith);
    }
    let n: u64 = (x as u64) * (FX_ONE as u64);
    let mut lo: u64 = 0;
    let mut hi: u64 = (FX_ONE as u64) + 1;
    while lo + 1 < hi
        invariant
            lo < hi <= 1_000_001,
            lo * lo <= n,
            n < hi * hi,
            n == x as int * FX_ONE as int,
        decreases hi - lo,
    {
        let mid: u64 = lo + (hi - lo) / 2;
        proof {
            assert(mid as int * mid as int <= 1_000_000_000_000int) by (nonlinear_arith)
                requires mid <= 1_000_000;
        }
        if mid * mid <= n {
            lo = mid;
        } else {
            hi = mid;
        }
    }
    proof {
        lemma_sqrt_floor_unique(n as nat, lo as nat);
    }
    lo as i64
}

/// Saturating fixed-point power with a natural exponent, multiplied out from
/// the left.
pub open spec fn fx_pow_int(x: int, n: nat) -> int
    decreases n,
{
    if n == 0 {
        FX_ONE as int
    } else {
        fx_mul(fx_pow_int(x, (n - 1) as nat), x)
    }
}

/// Fractional-exponent refinement: walk the binary digits of `t / FX_ONE`
/// (most significant first), taking a square root of `y` per digit and
/// multiplying the digit's root into the accumulator when the digit is set.
pub open spec fn fx_pow_frac(y: int, t: int, fuel: nat, acc: int) -> int
    decreases fuel,
{
    if fuel == 0 {
        acc
    } else {
        let y2 = fx_sqrt_s(y);
        if 2 * t >= FX_ONE as int {
            fx_pow_frac(y2, 2 * t - FX_ONE as int, (fuel - 1) as nat, fx_mul(acc, y2))
        } else {
            fx_pow_frac(y2, 2 * t, (fuel - 1) as nat, acc)
        }
    }
}

/// Number of binary digits of the fractional exponent that the power
/// function consumes; enough to resolve one fixed-point unit.
pub const POW_FRAC_DIGITS: u64 = 20;

/// Fixed-point power `x` to the `e`, for a base on the unit interval and a
/// non-negative exponent: the integer part of `e` by repeated multiplication,
/// the fractional part by the square-root digit walk.  `fx_pow(x, 0)` is one,
/// also for `x == 0`.
pub open spec fn fx_pow(x: int, e: int) -> int {
    fx_pow_frac(
        x,
        e % (FX_ONE as int),
        POW_FRAC_DIGITS as nat,
        fx_pow_int(x, (e / (FX_ONE as int)) as nat),
    )
}

/// Power on the unit interval, exactly the value of [`fx_pow`].
pub fn fpow(x: i64, e: i64) -> (r: i64)
    requires
        0 <= x <= FX_ONE,
        0 <= e <= FX_MAX,
    ensures
        r as int == fx_pow(x as int, e as int),
        0 <= r <= FX_ONE,
{
    let n: u64 = (e as u64) / (FX_ONE as u64);
    let mut t: i64 = ((e as u64) % (FX_ONE as u64)) as i64;
    let mut r: i64 = FX_ONE;
    let mut k: u64 = 0;
    while k < n
        invariant
            k <= n,
            0 <= x <= FX_ONE,
            0 <= r <= FX_ONE,
            r as int == fx_pow_int(x as int, k as nat),
        decreases n - k,
    {
        let r2 = fmul(r, x);
        proof {
            lemma_fx_mul_unit(r as int, x as int);
        }
        r = r2;
        k = k + 1;
    }
    let mut y: i64 = x;
    let mut j: u64 = 0;
    while j < POW_FRAC_DIGITS
        invariant
            j <= POW_FRAC_DIGITS,
            0 <= x <= FX_ONE,
            0 <= y <= FX_ONE,
            0 <= t < FX_ONE,
            0 <= r <= FX_ONE,
            fx_pow(x as int, e as int) == fx_pow_frac(
                y as int,
                t as int,
                (POW_FRAC_DIGITS - j) as nat,
                r as int,
            ),
        decreases POW_FRAC_DIGITS - j,
    {
        let y2 = fsqrt(y);
        let t2: i64 = 2 * t;
        if t2 >= FX_ONE {
            let r2 = fmul(r, y2);
            proof {
                lemma_fx_mul_unit(r as int, y2 as int);
            }
            r = r2;
            t = t2 - FX_ONE;
        } else {
            t = t2;
        }
        y = y2;
        j = j + 1;
    }
    r
}

} // verus!
