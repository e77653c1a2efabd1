//! Binary floating-point numbers of 64 bits, held as their bit pattern.
//!
//! A finite non-negative pattern `p` stands for the real number `units(p)` times two to the
//! power of minus 1074, and patterns are ordered as the numbers they stand for. Arithmetic is
//! rounded to the nearest pattern, and to the even one of two equally near.

use vstd::arithmetic::power2::{lemma2_to64, lemma2_to64_rest, lemma_pow2_adds, lemma_pow2_pos,
    lemma_pow2_strictly_increases, lemma_pow2_unfold, pow2};
use vstd::prelude::*;

verus! {

/// Two to the power of 52: the distance between the patterns of `x` and `2 * x`.
pub const BINADE: u64 = 0x10_0000_0000_0000;

/// The pattern of positive infinity; smaller ones are finite and non-negative.
pub const INFINITY: u64 = 0x7ff0_0000_0000_0000;

/// The pattern of negative zero; the negative numbers follow it.
pub const SIGN: u64 = 0x8000_0000_0000_0000;

/// The number that a non-negative pattern stands for, in multiples of two to the power of -1074.
pub open spec fn units(p: nat) -> nat {
    if p < BINADE {
        p
    } else {
        (BINADE + p % (BINADE as nat)) as nat * pow2((p / (BINADE as nat) - 1) as nat)
    }
}

/// How many of the smallest numbers make up one.
pub open spec fn one() -> nat {
    pow2(1074)
}

/// Whether the pattern `p` is the one nearest to `n / d` units, the even one of two.
///
/// Infinity takes part as if it were the next finite number.
pub open spec fn is_nearest(p: nat, n: nat, d: nat) -> bool {
    &&& p <= INFINITY
    &&& p < INFINITY ==> {
        let above = (units(p) + units(p + 1)) * d;
        2 * n < above || (2 * n == above && p % 2 == 0)
    }
    &&& p > 0 ==> {
        let below = (units((p - 1) as nat) + units(p)) * d;
        2 * n > below || (2 * n == below && p % 2 == 0)
    }
}

/// The pattern nearest to `n / d` units.
pub open spec fn nearest(n: nat, d: nat) -> nat {
    choose|p: nat| is_nearest(p, n, d)
}

/// The distance from the number of a pattern to the next one.
proof fn lemma_units_step(p: nat)
    ensures
        p < BINADE ==> units(p + 1) == units(p) + 1,
        p >= BINADE ==> units(p + 1) == units(p) + pow2((p / (BINADE as nat) - 1) as nat),
{
    lemma2_to64();
    let b = BINADE as nat;
    let e = p / b;
    let f = p % b;
    assert(p == e * b + f);
    if p < b {
        if p + 1 == b {
            assert(units(p + 1) == (b + 0) * pow2(0));
        }
    } else if f + 1 < b {
        assert((p + 1) / b == e && (p + 1) % b == f + 1);
        assert((b + f + 1) * pow2((e - 1) as nat) == (b + f) * pow2((e - 1) as nat) + pow2(
            (e - 1) as nat,
        )) by (nonlinear_arith);
    } else {
        assert((p + 1) / b == e + 1 && (p + 1) % b == 0);
        lemma_pow2_unfold(e);
        let w = pow2((e - 1) as nat);
        assert((b + 0) * (2 * w) == (b + f) * w + w) by (nonlinear_arith)
            requires
                f + 1 == b,
        ;
    }
}

/// Patterns are ordered as the numbers they stand for.
pub proof fn units_are_ordered(p: nat, q: nat)
    ensures
        p < q <==> units(p) < units(q),
        p == q <==> units(p) == units(q),
{
    if p < q {
        lemma_units_increase(p, q);
    } else if q < p {
        lemma_units_increase(q, p);
    }
}

proof fn lemma_units_increase(p: nat, q: nat)
    requires
        p < q,
    ensures
        units(p) < units(q),
    decreases q - p,
{
    lemma_units_step(p);
    lemma_pow2_pos((p / (BINADE as nat) - 1) as nat);
    if p + 1 < q {
        lemma_units_increase(p + 1, q);
    }
}

/// No number has two nearest patterns.
pub proof fn nearest_is_unique(p: nat, n: nat, d: nat)
    requires
        is_nearest(p, n, d),
        d > 0,
    ensures
        nearest(n, d) == p,
{
    let q = nearest(n, d);
    assert(is_nearest(q, n, d));
    if p < q {
        lemma_two_nearest(p, q, n, d);
    } else if q < p {
        lemma_two_nearest(q, p, n, d);
    }
}

proof fn lemma_two_nearest(p: nat, q: nat, n: nat, d: nat)
    requires
        is_nearest(p, n, d),
        is_nearest(q, n, d),
        p <= q,
        d > 0,
    ensures
        p == q,
{
    if p < q {
        let q1 = (q - 1) as nat;
        units_are_ordered(p, q1);
        units_are_ordered(p + 1, q);
        let a = units(p) + units(p + 1);
        let b = units(q1) + units(q);
        if p < q1 {
            assert(a * d < b * d) by (nonlinear_arith)
                requires
                    a < b,
                    d > 0,
            ;
        } else {
            assert(q == p + 1);
        }
    }
}

/// Rounding never crosses a number that a pattern stands for.
pub proof fn nearest_is_monotone(p: nat, n: nat, d: nat, bound: nat)
    requires
        is_nearest(p, n, d),
        d > 0,
        bound <= INFINITY,
    ensures
        n <= units(bound) * d ==> p <= bound,
        n >= units(bound) * d ==> p >= bound,
{
    let u = units(bound);
    if n <= u * d && p > bound {
        units_are_ordered(bound, (p - 1) as nat);
        units_are_ordered(bound, p);
        let s = units((p - 1) as nat) + units(p);
        assert(s * d > 2 * (u * d)) by (nonlinear_arith)
            requires
                s > 2 * u,
                d > 0,
        ;
    }
    if n >= u * d && p < bound {
        units_are_ordered(p + 1, bound);
        units_are_ordered(p, bound);
        let s = units(p) + units(p + 1);
        assert(s * d < 2 * (u * d)) by (nonlinear_arith)
            requires
                s < 2 * u,
                d > 0,
        ;
    }
}

/// Of two neighbouring patterns around `n / d`, the nearer one is the nearest of all.
proof fn lemma_nearest_between(lo: nat, n: nat, d: nat)
    requires
        d > 0,
        lo < INFINITY,
        units(lo) * d <= n <= units(lo + 1) * d,
    ensures
        2 * n < (units(lo) + units(lo + 1)) * d ==> is_nearest(lo, n, d),
        2 * n > (units(lo) + units(lo + 1)) * d ==> is_nearest(lo + 1, n, d),
        2 * n == (units(lo) + units(lo + 1)) * d && lo % 2 == 0 ==> is_nearest(lo, n, d),
        2 * n == (units(lo) + units(lo + 1)) * d && lo % 2 == 1 ==> is_nearest(lo + 1, n, d),
{
    let u = units(lo);
    let v = units(lo + 1);
    if lo > 0 {
        let t = units((lo - 1) as nat);
        units_are_ordered((lo - 1) as nat, lo);
        assert((t + u) * d < 2 * (u * d)) by (nonlinear_arith)
            requires
                t < u,
                d > 0,
        ;
    }
    let w = units(lo + 2);
    units_are_ordered(lo + 1, lo + 2);
    assert((v + w) * d > 2 * (v * d)) by (nonlinear_arith)
        requires
            v < w,
            d > 0,
    ;
}

/// A number that a pattern stands for rounds to that pattern.
proof fn lemma_exact_is_nearest(p: nat, n: nat, d: nat)
    requires
        d > 0,
        p <= INFINITY,
        n == units(p) * d,
    ensures
        is_nearest(p, n, d),
{
    let u = units(p);
    if p > 0 {
        let t = units((p - 1) as nat);
        units_are_ordered((p - 1) as nat, p);
        assert((t + u) * d < 2 * (u * d)) by (nonlinear_arith)
            requires
                t < u,
                d > 0,
        ;
    }
    let v = units(p + 1);
    units_are_ordered(p, p + 1);
    assert((u + v) * d > 2 * (u * d)) by (nonlinear_arith)
        requires
            u < v,
            d > 0,
    ;
}

/// A significand of at most 53 bits and an exponent make a number that a pattern stands for.
pub(crate) proof fn lemma_representable(m: nat, k: nat) -> (p: nat)
    requires
        m < 2 * BINADE,
        k < 2045,
    ensures
        units(p) == m * pow2(k),
        p < INFINITY,
    decreases k,
{
    lemma2_to64();
    if k == 0 || m >= BINADE {
        lemma_packed_units(m, k);
        k * (BINADE as nat) + m
    } else {
        lemma_pow2_unfold(k);
        let w = pow2((k - 1) as nat);
        assert((2 * m) * w == m * (2 * w)) by (nonlinear_arith);
        lemma_representable(2 * m, (k - 1) as nat)
    }
}

/// The difference of two numbers is exact where a pattern stands for it.
pub(crate) proof fn lemma_exact_difference(p: nat, q: nat, r: nat)
    requires
        units(p) == units(q) + units(r),
        r <= INFINITY,
    ensures
        difference(p, q) == r,
{
    lemma_exact_is_nearest(r, units(r), 1);
    nearest_is_unique(r, units(r), 1);
}

/// A number beyond the finite ones rounds to infinity.
proof fn lemma_overflow_is_nearest(n: nat, d: nat)
    requires
        d > 0,
        n >= units(INFINITY as nat) * d,
    ensures
        is_nearest(INFINITY as nat, n, d),
{
    let u = units(INFINITY as nat);
    let t = units((INFINITY - 1) as nat);
    units_are_ordered((INFINITY - 1) as nat, INFINITY as nat);
    assert((t + u) * d < 2 * (u * d)) by (nonlinear_arith)
        requires
            t < u,
            d > 0,
    ;
}

/// The pattern made of a significand of at most 53 bits and an exponent.
proof fn lemma_packed_units(q: nat, e: nat)
    requires
        q <= 2 * BINADE,
        e == 0 || q >= BINADE,
    ensures
        units(e * (BINADE as nat) + q) == q * pow2(e),
{
    lemma2_to64();
    let b = BINADE as nat;
    let p = e * b + q;
    if q < b {
        assert(e == 0);
        assert(q * pow2(0) == q);
    } else if q < 2 * b {
        assert(p / b == e + 1 && p % b == q - b) by (nonlinear_arith)
            requires
                p == e * b + q,
                b <= q < 2 * b,
        ;
    } else {
        assert(p / b == e + 2 && p % b == 0) by (nonlinear_arith)
            requires
                p == e * b + 2 * b,
                b > 0,
        ;
        lemma_pow2_unfold(e + 1);
        let w = pow2(e);
        assert((b + 0) * (2 * w) == (2 * b) * w) by (nonlinear_arith);
    }
}

/// Every number has a nearest pattern.
pub proof fn nearest_exists(n: nat, d: nat)
    requires
        d > 0,
    ensures
        is_nearest(nearest(n, d), n, d),
{
    if n >= units(INFINITY as nat) * d {
        lemma_overflow_is_nearest(n, d);
    } else {
        let lo = lemma_last_below(INFINITY as nat, n, d);
        lemma_nearest_between(lo, n, d);
        assert(is_nearest(lo, n, d) || is_nearest(lo + 1, n, d));
    }
}

/// The last pattern below `p` whose number is not above `n / d`.
proof fn lemma_last_below(p: nat, n: nat, d: nat) -> (lo: nat)
    requires
        n < units(p) * d,
        d > 0,
    ensures
        lo < p,
        units(lo) * d <= n < units(lo + 1) * d,
    decreases p,
{
    if p == 0 {
        assert(units(0) * d == 0) by (nonlinear_arith)
            requires
                units(0) == 0,
        ;
        0
    } else if units((p - 1) as nat) * d <= n {
        (p - 1) as nat
    } else {
        lemma_last_below((p - 1) as nat, n, d)
    }
}

/// Integers below two to the power of 53 are numbers as they are.
pub proof fn small_integers_are_exact(n: nat)
    requires
        n < 2 * BINADE,
    ensures
        units(rounded(n)) == n * one(),
        rounded(n) < INFINITY,
{
    let p = lemma_representable(n, 1074);
    lemma_exact_is_nearest(p, n * one(), 1);
    nearest_is_unique(p, n * one(), 1);
}

/// Rounding keeps the order of numbers.
pub proof fn nearest_keeps_order(m: nat, n: nat, d: nat)
    requires
        m <= n,
        d > 0,
    ensures
        nearest(m, d) <= nearest(n, d),
{
    nearest_exists(m, d);
    nearest_exists(n, d);
    let p = nearest(m, d);
    let q = nearest(n, d);
    if q < p {
        units_are_ordered(q, (p - 1) as nat);
        units_are_ordered(q + 1, p);
        let a = units(q) + units(q + 1);
        let b = units((p - 1) as nat) + units(p);
        assert(a * d <= b * d) by (nonlinear_arith)
            requires
                a <= b,
        ;
        if m == n {
            lemma_two_nearest(q, p, m, d);
        }
    }
}

/// Rounding keeps the order of integers.
pub proof fn rounded_is_monotone(m: nat, n: nat)
    requires
        m <= n,
    ensures
        rounded(m) <= rounded(n),
{
    let w = one();
    assert(m * w <= n * w) by (nonlinear_arith)
        requires
            m <= n,
    ;
    nearest_keeps_order(m * w, n * w, 1);
}

/// Two to the power of `e`.
pub(crate) fn power_of_two(e: u32) -> (r: u128)
    requires
        e <= 127,
    ensures
        r == pow2(e as nat),
{
    let mut r: u128 = 1;
    let mut i: u32 = 0;
    proof {
        lemma2_to64();
    }
    while i < e
        invariant
            i <= e <= 127,
            r == pow2(i as nat),
        decreases e - i,
    {
        proof {
            lemma_pow2_unfold((i + 1) as nat);
            lemma_pow2_127();
            if i + 1 < 127 {
                lemma_pow2_strictly_increases((i + 1) as nat, 127);
            }
        }
        r = r * 2;
        i = i + 1;
    }
    r
}

proof fn lemma_pow2_127()
    ensures
        pow2(126) == 0x4000_0000_0000_0000_0000_0000_0000_0000,
        pow2(127) == 0x8000_0000_0000_0000_0000_0000_0000_0000,
{
    lemma2_to64_rest();
    lemma_pow2_adds(63, 63);
    lemma_pow2_unfold(127);
}

/// The number of binary digits of `m`.
fn bit_length(m: u128) -> (r: u32)
    ensures
        r <= 128,
        m < pow2(r as nat),
        m > 0 ==> r > 0 && pow2((r - 1) as nat) <= m,
{
    let mut t: u128 = m;
    let mut r: u32 = 0;
    proof {
        lemma2_to64();
        lemma_pow2_127();
        lemma_pow2_unfold(128);
    }
    while t > 0
        invariant
            r <= 128,
            pow2(128) == 0x1_0000_0000_0000_0000_0000_0000_0000_0000,
            t * pow2(r as nat) <= m < (t + 1) * pow2(r as nat),
            t == 0 && m > 0 ==> r > 0 && pow2((r - 1) as nat) <= m,
        decreases t,
    {
        let half = t / 2;
        proof {
            let w = pow2(r as nat);
            lemma_pow2_unfold((r + 1) as nat);
            lemma_pow2_pos(r as nat);
            assert(half * (2 * w) <= t * w && (t + 1) * w <= (half + 1) * (2 * w))
                by (nonlinear_arith)
                requires
                    2 * half <= t <= 2 * half + 1,
                    w > 0,
            ;
            assert(w <= t * w) by (nonlinear_arith)
                requires
                    t >= 1,
            ;
            if r >= 128 {
                if r > 128 {
                    lemma_pow2_strictly_increases(128, r as nat);
                }
            }
        }
        t = half;
        r = r + 1;
    }
    assert((0 + 1) * pow2(r as nat) == pow2(r as nat)) by (nonlinear_arith);
    r
}

/// Whether `n / d` units is `m` times two to the power of `k`, or with `sticky` more than that and
/// less than `m + 1` times the same power.
spec fn stands_for(m: nat, sticky: bool, k: int, n: nat, d: nat) -> bool {
    let a = pow2(if k > 0 { k as nat } else { 0 }) * d;
    let b = pow2(if k < 0 { (-k) as nat } else { 0 });
    if sticky {
        m * a < n * b < (m + 1) * a
    } else {
        n * b == m * a
    }
}

/// Widening a significand to the left loses nothing.
proof fn lemma_shift_left(m: nat, k: int, s: int, n: nat, d: nat)
    requires
        s <= 0,
        k + s >= 0,
        stands_for(m, false, k, n, d),
    ensures
        n == m * pow2((-s) as nat) * pow2((k + s) as nat) * d,
{
    lemma2_to64();
    lemma_pow2_adds((-s) as nat, (k + s) as nat);
    let x = pow2((-s) as nat);
    let y = pow2((k + s) as nat);
    let w = pow2(k as nat);
    assert((-s) as nat + (k + s) as nat == k as nat);
    assert(w == x * y);
    if k == 0 {
        assert(pow2(0) * d == w * d);
    }
    assert(m * (w * d) == m * x * y * d) by (nonlinear_arith)
        requires
            w == x * y,
    ;
    assert(n * 1 == n);
}

/// Where `n / d` lies between `q` and `q + 1` times two to the power of `k + s`.
proof fn lemma_shift_right(m: nat, sticky: bool, k: int, s: int, n: nat, d: nat, q: nat, rem: nat)
    requires
        s >= 1,
        k + s >= 0,
        d > 0,
        m == q * pow2(s as nat) + rem,
        rem < pow2(s as nat),
        stands_for(m, sticky, k, n, d),
    ensures
        ({
            let w = pow2((k + s) as nat);
            let half = pow2((s - 1) as nat);
            &&& q * w * d <= n < (q + 1) * w * d
            &&& rem < half ==> 2 * n < (q * w + (q + 1) * w) * d
            &&& rem > half ==> 2 * n > (q * w + (q + 1) * w) * d
            &&& rem == half && sticky ==> 2 * n > (q * w + (q + 1) * w) * d
            &&& rem == half && !sticky ==> 2 * n == (q * w + (q + 1) * w) * d
        }),
{
    let kp: nat = if k > 0 {
        k as nat
    } else {
        0
    };
    let kn: nat = if k < 0 {
        (-k) as nat
    } else {
        0
    };
    let a = pow2(kp) * d;
    let b = pow2(kn);
    let w = pow2((k + s) as nat);
    let t = pow2(s as nat);
    let half = pow2((s - 1) as nat);
    lemma_pow2_pos(kp);
    lemma_pow2_pos(kn);
    lemma_pow2_pos(s as nat);
    lemma_pow2_unfold(s as nat);
    lemma_pow2_adds((k + s) as nat, kn);
    lemma_pow2_adds(s as nat, kp);
    assert((k + s) as nat + kn == s as nat + kp);
    assert(w * b == t * pow2(kp));
    assert(a > 0) by (nonlinear_arith)
        requires
            a == pow2(kp) * d,
            pow2(kp) > 0,
            d > 0,
    ;
    // One step of the result, scaled by `b`, is `t` steps of `a`.
    let step = w * d;
    assert(step * b == t * a) by (nonlinear_arith)
        requires
            w * b == t * pow2(kp),
            a == pow2(kp) * d,
            step == w * d,
    ;
    assert(q * w * d == q * step && (q + 1) * w * d == (q + 1) * step) by (nonlinear_arith)
        requires
            step == w * d,
    ;
    assert((q * w + (q + 1) * w) * d == (2 * q + 1) * step) by (nonlinear_arith)
        requires
            step == w * d,
    ;
    assert(q * step * b == q * t * a && (q + 1) * step * b == (q * t + t) * a && (2 * q + 1) * step
        * b == (2 * (q * t) + t) * a) by (nonlinear_arith)
        requires
            step * b == t * a,
    ;
    let c = q * t;
    assert(m * a == c * a + rem * a && (m + 1) * a == c * a + (rem + 1) * a) by (nonlinear_arith)
        requires
            m == c + rem,
    ;
    assert((c + t) * a == c * a + t * a && (2 * c + t) * a == 2 * (c * a) + t * a)
        by (nonlinear_arith);
    assert((rem + 1) * a <= t * a) by (nonlinear_arith)
        requires
            rem + 1 <= t,
            a > 0,
    ;
    assert((rem + 1) * a == rem * a + a) by (nonlinear_arith);
    assert(rem * a >= 0) by (nonlinear_arith)
        requires
            a > 0,
    ;
    assert(t * a == 2 * (half * a)) by (nonlinear_arith)
        requires
            t == 2 * half,
    ;
    if rem < half {
        assert((rem + 1) * a <= half * a) by (nonlinear_arith)
            requires
                rem + 1 <= half,
                a > 0,
        ;
    }
    if rem > half {
        assert(rem * a > half * a) by (nonlinear_arith)
            requires
                rem > half,
                a > 0,
        ;
    }
    let x = q * step;
    let y = (q + 1) * step;
    let z = (2 * q + 1) * step;
    assert(x <= n) by (nonlinear_arith)
        requires
            x * b <= n * b,
            b > 0,
    ;
    assert(n < y) by (nonlinear_arith)
        requires
            n * b < y * b,
            b > 0,
    ;
    assert((2 * n) * b == 2 * (n * b)) by (nonlinear_arith);
    if rem < half {
        assert(2 * n < z) by (nonlinear_arith)
            requires
                (2 * n) * b < z * b,
                b > 0,
        ;
    } else if rem > half || sticky {
        assert(2 * n > z) by (nonlinear_arith)
            requires
                (2 * n) * b > z * b,
                b > 0,
        ;
    } else {
        assert(2 * n == z) by (nonlinear_arith)
            requires
                (2 * n) * b == z * b,
                b > 0,
        ;
    }
}

/// Less than half a unit rounds to zero.
proof fn lemma_underflow(m: nat, sticky: bool, k: int, n: nat, d: nat)
    requires
        k <= -128,
        d > 0,
        m < pow2(127),
        stands_for(m, sticky, k, n, d),
    ensures
        is_nearest(0, n, d),
{
    lemma2_to64();
    let b = pow2((-k) as nat);
    let h = pow2((-k - 1) as nat);
    lemma_pow2_unfold((-k) as nat);
    if -k - 1 > 127 {
        lemma_pow2_strictly_increases(127, (-k - 1) as nat);
    }
    assert(pow2(0) * d == d);
    assert((m + 1) * d <= h * d) by (nonlinear_arith)
        requires
            m + 1 <= h,
            d > 0,
    ;
    assert(m * d < (m + 1) * d) by (nonlinear_arith)
        requires
            d > 0,
    ;
    assert(2 * n < d) by (nonlinear_arith)
        requires
            n * b < h * d,
            b == 2 * h,
            h > 0,
            d > 0,
    ;
    assert((units(0) + units(1)) * d == d);
}

/// A significand of 53 bits whose exponent is too great stands for no finite number.
proof fn lemma_overflow(q: nat, e: nat, n: nat, d: nat)
    requires
        e >= 2046,
        BINADE <= q <= 2 * BINADE,
        d > 0,
        q * pow2(e) * d <= n,
    ensures
        is_nearest(INFINITY as nat, n, d),
{
    lemma_packed_units(q, e);
    let b = BINADE as nat;
    let p = e * b + q;
    assert(p >= INFINITY) by (nonlinear_arith)
        requires
            p == e * b + q,
            e >= 2046,
            q >= b,
            b == 0x10_0000_0000_0000,
            INFINITY == 2047 * b,
    ;
    units_are_ordered(INFINITY as nat, p);
    let u = units(INFINITY as nat);
    let v = units(p);
    assert(u * d <= v * d) by (nonlinear_arith)
        requires
            u <= v,
            d > 0,
    ;
    lemma_overflow_is_nearest(n, d);
}

/// Rounds a number whose significand has at most 53 bits and is an integer in units.
fn round_narrow(m: u128, k: i32, length: i32, s: i32, Ghost(n): Ghost<nat>, Ghost(d): Ghost<nat>) -> (r:
    u64)
    requires
        d > 0,
        1 <= length <= 53,
        pow2((length - 1) as nat) <= m < pow2(length as nat),
        0 <= k <= 0x10000,
        length - 53 <= s <= 0,
        k + s >= 0,
        k + s > 0 ==> s == length - 53,
        stands_for(m as nat, false, k as int, n, d),
    ensures
        is_nearest(r as nat, n, d),
{
    let e: i32 = k + s;
    let w: u128 = power_of_two((-s) as u32);
    proof {
        lemma2_to64_rest();
        lemma_pow2_pos((-s) as nat);
        lemma_pow2_adds(length as nat, (-s) as nat);
        assert(length as nat + (-s) as nat == (length - s) as nat);
        if length - s < 53 {
            lemma_pow2_strictly_increases((length - s) as nat, 53);
        }
        let l = pow2(length as nat);
        assert(m * w < l * w) by (nonlinear_arith)
            requires
                m < l,
                w > 0,
        ;
        if e > 0 {
            lemma_pow2_adds((length - 1) as nat, (-s) as nat);
            assert((length - 1) as nat + (-s) as nat == 52);
            let l1 = pow2((length - 1) as nat);
            assert(l1 * w <= m * w) by (nonlinear_arith)
                requires
                    l1 <= m,
            ;
        }
        lemma_shift_left(m as nat, k as int, s as int, n, d);
    }
    let q: u128 = m * w;
    if e >= 2046 {
        proof {
            lemma_overflow(q as nat, e as nat, n, d);
        }
        INFINITY
    } else {
        let r: u64 = (e as u64) * BINADE + q as u64;
        proof {
            lemma_packed_units(q as nat, e as nat);
            lemma_exact_is_nearest(r as nat, n, d);
        }
        r
    }
}

/// Rounds a number whose significand has to give up its last `s` bits.
fn round_wide(
    m: u128,
    sticky: bool,
    k: i32,
    length: i32,
    s: i32,
    Ghost(n): Ghost<nat>,
    Ghost(d): Ghost<nat>,
) -> (r: u64)
    requires
        d > 0,
        1 <= length <= 127,
        pow2((length - 1) as nat) <= m < pow2(length as nat),
        -0x10000 <= k <= 0x10000,
        1 <= s <= 127,
        length - 53 <= s,
        k + s >= 0,
        k + s > 0 ==> s == length - 53,
        stands_for(m as nat, sticky, k as int, n, d),
    ensures
        is_nearest(r as nat, n, d),
{
    let e: i32 = k + s;
    let w: u128 = power_of_two(s as u32);
    proof {
        lemma_pow2_pos(s as nat);
    }
    let q: u128 = m / w;
    let rem: u128 = m % w;
    proof {
        lemma2_to64_rest();
        assert(m == q * w + rem) by (nonlinear_arith)
            requires
                w > 0,
                q == m / w,
                rem == m % w,
        ;
        lemma_shift_right(m as nat, sticky, k as int, s as int, n, d, q as nat, rem as nat);
        lemma_pow2_adds(53, s as nat);
        if length < 53 + s {
            lemma_pow2_strictly_increases(length as nat, (53 + s) as nat);
        }
        assert(q < 2 * BINADE) by (nonlinear_arith)
            requires
                m == q * w + rem,
                m < (2 * BINADE) * w,
                w > 0,
                rem >= 0,
        ;
        if e > 0 {
            lemma_pow2_adds(52, s as nat);
            assert(52 + s as nat == (length - 1) as nat);
            assert(q >= BINADE) by (nonlinear_arith)
                requires
                    m == q * w + rem,
                    m >= BINADE * w,
                    rem < w,
            ;
        }
        lemma_pow2_unfold(s as nat);
    }
    if e >= 2046 {
        proof {
            lemma_overflow(q as nat, e as nat, n, d);
        }
        return INFINITY;
    }
    let lo: u64 = (e as u64) * BINADE + q as u64;
    proof {
        lemma_packed_units(q as nat, e as nat);
        lemma_packed_units((q + 1) as nat, e as nat);
        lemma_nearest_between(lo as nat, n, d);
        assert(lo % 2 == q % 2);
    }
    let half: u128 = w / 2;
    if rem > half || (rem == half && (sticky || q % 2 == 1)) {
        lo + 1
    } else {
        lo
    }
}

/// Rounds a number to the nearest pattern.
fn round_to_nearest(m: u128, sticky: bool, k: i32, Ghost(n): Ghost<nat>, Ghost(d): Ghost<nat>) -> (r:
    u64)
    requires
        d > 0,
        0 < m < pow2(127),
        -0x10000 <= k <= 0x10000,
        sticky ==> m >= pow2(54),
        stands_for(m as nat, sticky, k as int, n, d),
    ensures
        is_nearest(r as nat, n, d),
{
    let length: i32 = bit_length(m) as i32;
    proof {
        if length >= 128 {
            if length > 128 {
                lemma_pow2_strictly_increases(127, (length - 1) as nat);
            }
        }
        if sticky && length < 55 {
            if length < 54 {
                lemma_pow2_strictly_increases(length as nat, 54);
            }
        }
    }
    let s: i32 = if length - 53 > -k {
        length - 53
    } else {
        -k
    };
    if s <= 0 {
        round_narrow(m, k, length, s, Ghost(n), Ghost(d))
    } else if s >= 128 {
        proof {
            lemma_underflow(m as nat, sticky, k as int, n, d);
        }
        0
    } else {
        round_wide(m, sticky, k, length, s, Ghost(n), Ghost(d))
    }
}

/// A finite non-negative number or infinity, a negative number, or not a number, as its pattern.
#[derive(Clone, Copy, Debug, PartialEq, Eq, Structural)]
pub struct Binary64 {
    pub bits: u64,
}

impl View for Binary64 {
    type V = nat;

    open spec fn view(&self) -> nat {
        self.bits as nat
    }
}

/// The integer `n`, rounded.
pub open spec fn rounded(n: nat) -> nat {
    nearest(n * one(), 1)
}

/// The sum of two numbers, rounded.
pub open spec fn sum(p: nat, q: nat) -> nat {
    nearest(units(p) + units(q), 1)
}

/// The difference of two numbers, rounded.
pub open spec fn difference(p: nat, q: nat) -> nat
    recommends
        q <= p,
{
    nearest((units(p) - units(q)) as nat, 1)
}

/// The product of two numbers, rounded.
pub open spec fn product(p: nat, q: nat) -> nat {
    nearest(units(p) * units(q), one())
}

/// The quotient of two numbers, rounded.
pub open spec fn quotient(p: nat, q: nat) -> nat
    recommends
        q > 0,
{
    nearest(units(p) * one(), units(q))
}

/// The significand and the exponent of a finite positive number.
pub(crate) fn split(p: u64) -> (r: (u64, i32))
    requires
        0 < p < INFINITY,
    ensures
        0 < r.0 < 2 * BINADE,
        0 <= r.1 < 2046,
        r.1 > 0 ==> r.0 >= BINADE,
        units(p as nat) == r.0 * pow2(r.1 as nat),
{
    proof {
        lemma2_to64();
    }
    if p < BINADE {
        assert(p * pow2(0) == p);
        (p, 0)
    } else {
        (BINADE + p % BINADE, (p / BINADE) as i32 - 1)
    }
}

impl Binary64 {
    /// The number zero.
    pub fn zero() -> (r: Self)
        ensures
            r@ == 0,
    {
        Binary64 { bits: 0 }
    }

    /// Whether the number is neither negative, nor infinite, nor missing.
    pub open spec fn finite(self) -> bool {
        self.bits < INFINITY
    }

    /// The integer `n` as a number, rounded.
    pub fn from_integer(n: u64) -> (r: Self)
        ensures
            r@ == rounded(n as nat),
            is_nearest(r@, n as nat * one(), 1),
            r.finite(),
    {
        proof {
            lemma2_to64();
        }
        if n == 0 {
            proof {
                lemma_exact_is_nearest(0, 0, 1);
                nearest_is_unique(0, 0, 1);
            }
            return Binary64 { bits: 0 };
        }
        let ghost g = (n * one()) as nat;
        proof {
            lemma2_to64_rest();
            lemma_pow2_adds(64, 63);
            lemma_pow2_pos(1074);
            assert(pow2(1074) * 1 == pow2(1074));
            assert(g * pow2(0) == g);
        }
        let r: u64 = round_to_nearest(n as u128, false, 1074, Ghost(g), Ghost(1));
        proof {
            nearest_is_unique(r as nat, g, 1);
            lemma_bound_integer(r as nat, n as nat, 64);
            lemma_units_of_power(64);
        }
        Binary64 { bits: r }
    }

    /// The product of two numbers.
    pub fn times(self, other: Self) -> (r: Self)
        requires
            self.finite(),
            other.finite(),
        ensures
            r@ == product(self@, other@),
            is_nearest(r@, units(self@) * units(other@), one()),
    {
        let ghost n = units(self@) * units(other@);
        proof {
            lemma2_to64();
            lemma2_to64_rest();
            lemma_pow2_pos(1074);
        }
        if self.bits == 0 || other.bits == 0 {
            proof {
                assert(n == 0) by (nonlinear_arith)
                    requires
                        n == units(self@) * units(other@),
                        units(self@) == 0 || units(other@) == 0,
                ;
                lemma_exact_is_nearest(0, 0, one());
                nearest_is_unique(0, 0, one());
            }
            return Binary64 { bits: 0 };
        }
        let (ma, ka): (u64, i32) = split(self.bits);
        let (mb, kb): (u64, i32) = split(other.bits);
        assert(0 < ma * mb < 0x40_0000_0000_0000 * 0x40_0000_0000_0000) by (nonlinear_arith)
            requires
                0 < ma < 0x20_0000_0000_0000,
                0 < mb < 0x20_0000_0000_0000,
        ;
        let m: u128 = (ma as u128) * (mb as u128);
        let k: i32 = ka + kb - 1074;
        proof {
            lemma_pow2_127();
            let x = pow2(ka as nat);
            let y = pow2(kb as nat);
            lemma_pow2_adds(ka as nat, kb as nat);
            let z = pow2((ka + kb) as nat);
            assert(ka as nat + kb as nat == (ka + kb) as nat);
            assert(n == m * z) by (nonlinear_arith)
                requires
                    n == (ma * x) * (mb * y),
                    m == ma * mb,
                    z == x * y,
            ;
            if k >= 0 {
                lemma_pow2_adds(k as nat, 1074);
                assert(k as nat + 1074 == (ka + kb) as nat);
                assert(n * 1 == n);
                if k == 0 {
                    assert(pow2(0) * one() == z);
                }
            } else {
                lemma_pow2_adds((ka + kb) as nat, (-k) as nat);
                assert((ka + kb) as nat + (-k) as nat == 1074);
                let b = pow2((-k) as nat);
                assert(n * b == m * (1 * one())) by (nonlinear_arith)
                    requires
                        n == m * z,
                        one() == z * b,
                ;
            }
            assert(stands_for(m as nat, false, k as int, n, one()));
        }
        let r: u64 = round_to_nearest(m, false, k, Ghost(n), Ghost(one()));
        proof {
            nearest_is_unique(r as nat, n, one());
        }
        Binary64 { bits: r }
    }

    /// The quotient of two numbers.
    pub fn divided_by(self, other: Self) -> (r: Self)
        requires
            self.finite(),
            other.finite(),
            other@ != 0,
        ensures
            r@ == quotient(self@, other@),
            is_nearest(r@, units(self@) * one(), units(other@)),
    {
        let ghost n = units(self@) * one();
        let ghost d = units(other@);
        proof {
            lemma2_to64();
            lemma2_to64_rest();
            units_are_ordered(0, other@);
        }
        if self.bits == 0 {
            proof {
                assert(n == 0) by (nonlinear_arith)
                    requires
                        n == 0 * one(),
                ;
                assert(0 * d == 0) by (nonlinear_arith);
                lemma_exact_is_nearest(0, 0, d);
                nearest_is_unique(0, 0, d);
            }
            return Binary64 { bits: 0 };
        }
        let (ma, ka): (u64, i32) = split(self.bits);
        let (mb, kb): (u64, i32) = split(other.bits);
        let length: u32 = bit_length(ma as u128);
        proof {
            if length > 53 {
                if length > 54 {
                    lemma_pow2_strictly_increases(53, (length - 1) as nat);
                }
            }
        }
        let sh: u32 = 127 - length;
        let w: u128 = power_of_two(sh);
        proof {
            lemma_pow2_127();
            lemma_pow2_adds(length as nat, sh as nat);
            lemma_pow2_adds((length - 1) as nat, sh as nat);
            assert(length as nat + sh as nat == 127);
            assert((length - 1) as nat + sh as nat == 126);
            let l = pow2(length as nat);
            let l1 = pow2((length - 1) as nat);
            lemma_pow2_pos(sh as nat);
            assert(l1 * w <= ma * w < l * w) by (nonlinear_arith)
                requires
                    l1 <= ma < l,
                    w > 0,
            ;
        }
        let wide: u128 = (ma as u128) * w;
        let m: u128 = wide / (mb as u128);
        let rem: u128 = wide % (mb as u128);
        let k: i32 = ka - sh as i32 - kb + 1074;
        proof {
            assert(wide == m * mb + rem) by (nonlinear_arith)
                requires
                    mb > 0,
                    m == wide / (mb as u128),
                    rem == wide % (mb as u128),
            ;
            assert(m < pow2(127)) by (nonlinear_arith)
                requires
                    wide == m * mb + rem,
                    wide < pow2(127),
                    mb >= 1,
                    rem >= 0,
            ;
            assert(m >= 0x40_0000_0000_0000) by (nonlinear_arith)
                requires
                    wide == m * mb + rem,
                    wide >= 0x4000_0000_0000_0000_0000_0000_0000_0000,
                    mb < 0x20_0000_0000_0000,
                    rem < mb,
            ;
            lemma_quotient_stands(
                ma as nat,
                ka as nat,
                mb as nat,
                kb as nat,
                sh as nat,
                k as int,
                m as nat,
                rem as nat,
            );
        }
        let r: u64 = round_to_nearest(m, rem != 0, k, Ghost(n), Ghost(d));
        proof {
            nearest_is_unique(r as nat, n, d);
        }
        Binary64 { bits: r }
    }

    /// The sum of two numbers.
    pub fn plus(self, other: Self) -> (r: Self)
        requires
            self.finite(),
            other.finite(),
        ensures
            r@ == sum(self@, other@),
            is_nearest(r@, units(self@) + units(other@), 1),
    {
        let (high, low): (u64, u64) = if self.bits >= other.bits {
            (self.bits, other.bits)
        } else {
            (other.bits, self.bits)
        };
        let ghost n = units(self@) + units(other@);
        if low == 0 {
            proof {
                lemma_exact_is_nearest(high as nat, n, 1);
                nearest_is_unique(high as nat, n, 1);
            }
            return Binary64 { bits: high };
        }
        let (ma, ka): (u64, i32) = split(high);
        let (mb, kb): (u64, i32) = split(low);
        proof {
            lemma_split_order(high as nat, ma as nat, ka as nat, low as nat, mb as nat, kb as nat);
        }
        let (wide, whole, rest, k): (u128, u64, bool, i32) = align(ma, ka, mb, kb);
        proof {
            let u = units(high as nat);
            let v = units(low as nat);
            lemma_pow2_pos(k as nat);
            let w = pow2(k as nat);
            lemma2_to64();
            lemma2_to64_rest();
            lemma_pow2_127();
            assert(n * 1 == n);
            assert(w * 1 == w);
            assert((wide + whole) * w == wide * w + whole * w && (wide + whole + 1) * w == wide * w
                + (whole + 1) * w) by (nonlinear_arith);
        }
        let r: u64 = round_to_nearest(wide + whole as u128, rest, k, Ghost(n), Ghost(1));
        proof {
            nearest_is_unique(r as nat, n, 1);
        }
        Binary64 { bits: r }
    }

    /// The difference of two numbers, the greater one first.
    pub fn minus(self, other: Self) -> (r: Self)
        requires
            self.finite(),
            other@ <= self@,
        ensures
            r@ == difference(self@, other@),
            r@ <= self@,
            is_nearest(r@, (units(self@) - units(other@)) as nat, 1),
    {
        let ghost n = (units(self@) - units(other@)) as nat;
        proof {
            units_are_ordered(other@, self@);
        }
        if other.bits == 0 || self.bits == other.bits {
            let r: u64 = if other.bits == 0 {
                self.bits
            } else {
                0
            };
            proof {
                lemma_exact_is_nearest(r as nat, n, 1);
                nearest_is_unique(r as nat, n, 1);
            }
            return Binary64 { bits: r };
        }
        let (ma, ka): (u64, i32) = split(self.bits);
        let (mb, kb): (u64, i32) = split(other.bits);
        proof {
            lemma_split_order(self@, ma as nat, ka as nat, other@, mb as nat, kb as nat);
        }
        let (wide, whole, rest, k): (u128, u64, bool, i32) = align(ma, ka, mb, kb);
        let ghost w = pow2(k as nat);
        proof {
            lemma_pow2_pos(k as nat);
            lemma2_to64();
            lemma2_to64_rest();
            lemma_pow2_127();
            assert(n * 1 == n);
            assert(w * 1 == w);
            assert((wide - whole) * w == wide * w - whole * w && (wide - whole - 1) * w == wide * w
                - (whole + 1) * w) by (nonlinear_arith);
            assert(wide > whole) by (nonlinear_arith)
                requires
                    wide * w > whole * w,
                    w > 0,
            ;
        }
        let m: u128 = if rest {
            wide - whole as u128 - 1
        } else {
            wide - whole as u128
        };
        let r: u64 = round_to_nearest(m, rest, k, Ghost(n), Ghost(1));
        proof {
            nearest_is_unique(r as nat, n, 1);
            nearest_is_monotone(r as nat, n, 1, self@);
        }
        Binary64 { bits: r }
    }

    /// Whether the number is greater than zero.
    pub open spec fn positive(self) -> bool {
        0 < self.bits <= INFINITY
    }

    /// Tests whether the number is greater than zero.
    pub fn is_positive(self) -> (r: bool)
        ensures
            r == self.positive(),
    {
        0 < self.bits && self.bits <= INFINITY
    }

    /// The greater of the number and `floor`; `floor` where there is no number.
    pub open spec fn spec_at_least(self, floor: Self) -> Self {
        if self.bits <= INFINITY && self.bits > floor.bits {
            self
        } else {
            floor
        }
    }

    /// The greater of the number and a non-negative `floor`; `floor` where there is no number.
    pub fn at_least(self, floor: Self) -> (r: Self)
        ensures
            r == self.spec_at_least(floor),
    {
        if self.bits <= INFINITY && self.bits > floor.bits {
            self
        } else {
            floor
        }
    }

    /// The integer part of the number, or the greatest integer of 64 bits below it.
    pub fn truncated(self) -> (r: u64)
        requires
            self.finite(),
        ensures
            r == truncated_to_u64(self@),
    {
        proof {
            lemma2_to64();
            lemma2_to64_rest();
            lemma_pow2_pos(1074);
        }
        if self.bits == 0 {
            return 0;
        }
        let (m, k): (u64, i32) = split(self.bits);
        if k >= 1074 {
            proof {
                lemma_floor_above(self@, m as nat, k as nat);
            }
            if k >= 1086 {
                proof {
                    if k > 1086 {
                        lemma_pow2_strictly_increases(12, (k - 1074) as nat);
                    }
                    let w = pow2((k - 1074) as nat);
                    assert(m * w >= 0x10_0000_0000_0000 * 0x1000) by (nonlinear_arith)
                        requires
                            m >= 0x10_0000_0000_0000,
                            w >= 0x1000,
                    ;
                }
                return u64::MAX;
            }
            let w: u128 = power_of_two((k - 1074) as u32);
            proof {
                if k < 1086 {
                    lemma_pow2_strictly_increases((k - 1074) as nat, 12);
                }
                assert(m * w < 0x20_0000_0000_0000 * 0x1000) by (nonlinear_arith)
                    requires
                        0 < m < 0x20_0000_0000_0000,
                        w <= 0x1000,
                ;
            }
            let r: u128 = (m as u128) * w;
            if r > u64::MAX as u128 {
                u64::MAX
            } else {
                r as u64
            }
        } else {
            proof {
                lemma_floor_below(self@, m as nat, k as nat);
            }
            if k <= 1021 {
                proof {
                    if k < 1021 {
                        lemma_pow2_strictly_increases(53, (1074 - k) as nat);
                    }
                    vstd::arithmetic::div_mod::lemma_basic_div(m as int, pow2((1074 - k) as nat) as int);
                }
                return 0;
            }
            let w: u128 = power_of_two((1074 - k) as u32);
            proof {
                lemma_pow2_pos((1074 - k) as nat);
                assert(m as u128 / w <= m) by (nonlinear_arith)
                    requires
                        w > 0,
                ;
            }
            ((m as u128) / w) as u64
        }
    }
}

/// The integer part of a number, or the greatest integer of 64 bits where that is too great.
pub open spec fn truncated_to_u64(p: nat) -> nat {
    if floor(p) <= u64::MAX {
        floor(p)
    } else {
        u64::MAX as nat
    }
}

/// The integer part of the number that a pattern stands for.
pub open spec fn floor(p: nat) -> nat {
    units(p) / one()
}

proof fn lemma_floor_above(p: nat, m: nat, k: nat)
    requires
        units(p) == m * pow2(k),
        k >= 1074,
    ensures
        floor(p) == m * pow2((k - 1074) as nat),
{
    lemma_pow2_adds((k - 1074) as nat, 1074);
    lemma_pow2_pos(1074);
    let w = pow2((k - 1074) as nat);
    assert((k - 1074) as nat + 1074 == k);
    assert(units(p) == (m * w) * one()) by (nonlinear_arith)
        requires
            units(p) == m * pow2(k),
            pow2(k) == w * one(),
    ;
    vstd::arithmetic::div_mod::lemma_div_by_multiple((m * w) as int, one() as int);
}

proof fn lemma_floor_below(p: nat, m: nat, k: nat)
    requires
        units(p) == m * pow2(k),
        k < 1074,
    ensures
        floor(p) == m / pow2((1074 - k) as nat),
{
    lemma_pow2_adds(k, (1074 - k) as nat);
    let w = pow2((1074 - k) as nat);
    let x = pow2(k);
    lemma_pow2_pos(k);
    lemma_pow2_pos((1074 - k) as nat);
    assert(k + (1074 - k) as nat == 1074);
    vstd::arithmetic::div_mod::lemma_div_multiples_vanish_quotient(x as int, m as int, w as int);
    assert(x * m == m * x) by (nonlinear_arith);
}

/// The greater of two numbers has no smaller exponent.
proof fn lemma_split_order(high: nat, ma: nat, ka: nat, low: nat, mb: nat, kb: nat)
    requires
        low <= high,
        units(high) == ma * pow2(ka),
        units(low) == mb * pow2(kb),
        0 < ma < 2 * BINADE,
        0 < mb < 2 * BINADE,
        kb > 0 ==> mb >= BINADE,
    ensures
        ka >= kb,
{
    units_are_ordered(low, high);
    if ka < kb {
        lemma_pow2_pos(ka);
        lemma_pow2_unfold((ka + 1) as nat);
        if ka + 1 < kb {
            lemma_pow2_strictly_increases((ka + 1) as nat, kb);
        }
        let x = pow2(ka);
        let y = pow2(kb);
        assert(ma * x < mb * y) by (nonlinear_arith)
            requires
                2 * x <= y,
                x > 0,
                ma < 2 * BINADE,
                mb >= BINADE,
        ;
    }
}

/// Brings two significands to one exponent, cutting what lies far below the first one.
///
/// The first comes out as a whole; of the second a whole part, and whether anything is left.
fn align(ma: u64, ka: i32, mb: u64, kb: i32) -> (r: (u128, u64, bool, i32))
    requires
        0 < ma < 2 * BINADE,
        0 < mb < 2 * BINADE,
        0 <= kb <= ka < 2046,
    ensures
        0 <= r.3 < 2046,
        0 < r.0 < pow2(118),
        pow2(118) == 0x40_0000_0000_0000_0000_0000_0000_0000,
        r.1 <= mb,
        r.2 ==> r.0 >= pow2(64),
        ma * pow2(ka as nat) == r.0 * pow2(r.3 as nat),
        !r.2 ==> mb * pow2(kb as nat) == r.1 * pow2(r.3 as nat),
        r.2 ==> r.1 * pow2(r.3 as nat) < mb * pow2(kb as nat) < (r.1 + 1) * pow2(r.3 as nat),
{
    proof {
        lemma2_to64();
        lemma2_to64_rest();
        lemma_pow2_adds(59, 59);
        lemma_pow2_adds(64, 54);
    }
    let gap: i32 = ka - kb;
    if gap <= 64 {
        let w: u128 = power_of_two(gap as u32);
        proof {
            lemma_pow2_adds(gap as nat, kb as nat);
            assert(gap as nat + kb as nat == ka as nat);
            if gap < 64 {
                lemma_pow2_strictly_increases(gap as nat, 64);
            }
            lemma_pow2_pos(gap as nat);
            assert(0 < ma * w < 0x40_0000_0000_0000 * 0x1_0000_0000_0000_0000) by (nonlinear_arith)
                requires
                    0 < ma < 0x20_0000_0000_0000,
                    0 < w <= 0x1_0000_0000_0000_0000,
            ;
            assert(ma * (w * pow2(kb as nat)) == (ma * w) * pow2(kb as nat)) by (nonlinear_arith);
        }
        ((ma as u128) * w, mb, false, kb)
    } else {
        let t: i32 = gap - 64;
        let k: i32 = ka - 64;
        let ghost x = pow2(kb as nat);
        let ghost y = pow2(k as nat);
        proof {
            lemma_pow2_adds(64, k as nat);
            assert(64 + k as nat == ka as nat);
            assert(ma * (pow2(64) * y) == (ma * pow2(64)) * y) by (nonlinear_arith);
            lemma_pow2_adds(t as nat, kb as nat);
            assert(t as nat + kb as nat == k as nat);
            lemma_pow2_pos(kb as nat);
            lemma_pow2_pos(t as nat);
        }
        let wide: u128 = (ma as u128) * 0x1_0000_0000_0000_0000;
        if t >= 64 {
            proof {
                if t > 64 {
                    lemma_pow2_strictly_increases(64, t as nat);
                }
                let w = pow2(t as nat);
                assert(0 * y < mb * x < (0 + 1) * y) by (nonlinear_arith)
                    requires
                        y == w * x,
                        0 < mb < w,
                        x > 0,
                ;
            }
            (wide, 0, true, k)
        } else {
            let w: u128 = power_of_two(t as u32);
            let whole: u128 = (mb as u128) / w;
            let rest: u128 = (mb as u128) % w;
            proof {
                assert(mb == whole * w + rest && whole <= mb) by (nonlinear_arith)
                    requires
                        w > 0,
                        whole == (mb as u128) / w,
                        rest == (mb as u128) % w,
                ;
                assert(whole * y == (mb - rest) * x && (whole + 1) * y == (mb - rest + w) * x)
                    by (nonlinear_arith)
                    requires
                        y == w * x,
                        mb == whole * w + rest,
                ;
                if rest > 0 {
                    assert((mb - rest) * x < mb * x < (mb - rest + w) * x) by (nonlinear_arith)
                        requires
                            0 < rest < w,
                            x > 0,
                    ;
                }
            }
            (wide, whole as u64, rest != 0, k)
        }
    }
}

/// The quotient of two scaled significands stands for the quotient of the numbers.
proof fn lemma_quotient_stands(
    ma: nat,
    ka: nat,
    mb: nat,
    kb: nat,
    sh: nat,
    k: int,
    m: nat,
    rem: nat,
)
    requires
        mb > 0,
        rem < mb,
        k == ka + 1074 - sh - kb,
        ma * pow2(sh) == m * mb + rem,
    ensures
        stands_for(m, rem != 0, k, (ma * pow2(ka)) * one(), mb * pow2(kb)),
{
    let kp: nat = if k > 0 {
        k as nat
    } else {
        0
    };
    let kn: nat = if k < 0 {
        (-k) as nat
    } else {
        0
    };
    let n = (ma * pow2(ka)) * one();
    let d = mb * pow2(kb);
    let z = pow2((kp + kb) as nat);
    lemma_pow2_adds(ka, 1074);
    lemma_pow2_adds(ka + 1074, kn);
    lemma_pow2_adds(sh, kp + kb);
    lemma_pow2_adds(kp, kb);
    assert(ka + 1074 + kn == sh + (kp + kb));
    lemma_pow2_pos(kp + kb);
    let v = pow2(sh);
    assert(n * pow2(kn) == (ma * v) * z) by (nonlinear_arith)
        requires
            n == (ma * pow2(ka)) * one(),
            pow2(ka + 1074) == pow2(ka) * one(),
            pow2(ka + 1074 + kn) == pow2(ka + 1074) * pow2(kn),
            pow2(ka + 1074 + kn) == v * z,
    ;
    assert(pow2(kp) * d == mb * z) by (nonlinear_arith)
        requires
            d == mb * pow2(kb),
            z == pow2(kp) * pow2(kb),
    ;
    let t = ma * v;
    assert(m * (mb * z) == (t - rem) * z && (m + 1) * (mb * z) == (t - rem + mb) * z)
        by (nonlinear_arith)
        requires
            t == m * mb + rem,
    ;
    if rem == 0 {
        assert((t - rem) * z == t * z);
    } else {
        assert((t - rem) * z < t * z < (t - rem + mb) * z) by (nonlinear_arith)
            requires
                0 < rem < mb,
                z > 0,
        ;
    }
}

/// The pattern of two to the power of `i`.
pub open spec fn power_pattern(i: int) -> nat {
    ((1023 + i) * BINADE) as nat
}

/// Whether the number of a pattern is at most two to the power of `i`.
pub open spec fn at_most_power(p: nat, i: int) -> bool {
    p <= power_pattern(i)
}

/// Whether the number of a pattern is at least two to the power of `i`.
pub open spec fn at_least_power(p: nat, i: int) -> bool {
    p >= power_pattern(i)
}

/// The number of a power's pattern.
pub(crate) proof fn lemma_units_of_power(i: int)
    requires
        -1022 <= i <= 1024,
    ensures
        units(power_pattern(i)) == pow2((i + 1074) as nat),
        i < 1024 ==> power_pattern(i) < INFINITY,
        power_pattern(i) > 0,
{
    lemma2_to64();
    lemma2_to64_rest();
    let b = BINADE as nat;
    let p = power_pattern(i);
    let c = (1023 + i) as nat;
    assert(p / b == c && p % b == 0 && p >= b) by (nonlinear_arith)
        requires
            p == c * b,
            c >= 1,
            b > 0,
    ;
    lemma_pow2_adds(52, (i + 1022) as nat);
    assert(52 + (i + 1022) as nat == (i + 1074) as nat);
}

/// Integers are at least one, and at most a power of two, when rounded as before.
pub(crate) proof fn lemma_bound_integer(p: nat, n: nat, i: nat)
    requires
        is_nearest(p, n * one(), 1),
        n <= pow2(i),
        i <= 64,
    ensures
        at_most_power(p, i as int),
        n >= 1 ==> at_least_power(p, 0),
{
    lemma_units_of_power(i as int);
    lemma_units_of_power(0);
    lemma_pow2_adds(i, 1074);
    let w = one();
    assert(n * w <= pow2(i) * w && (n >= 1 ==> n * w >= w)) by (nonlinear_arith)
        requires
            n <= pow2(i),
            w >= 0,
    ;
    nearest_is_monotone(p, n * w, 1, power_pattern(i as int));
    nearest_is_monotone(p, n * w, 1, power_pattern(0));
}

/// A product is at most the product of the bounds of its factors.
pub(crate) proof fn lemma_bound_product(r: nat, p: nat, q: nat, i: int, j: int)
    requires
        is_nearest(r, units(p) * units(q), one()),
        at_most_power(p, i),
        at_most_power(q, j),
        -500 <= i <= 500,
        -500 <= j <= 500,
    ensures
        at_most_power(r, i + j),
{
    lemma_units_of_power(i);
    lemma_units_of_power(j);
    lemma_units_of_power(i + j);
    units_are_ordered(p, power_pattern(i));
    units_are_ordered(q, power_pattern(j));
    lemma_pow2_pos(1074);
    lemma_pow2_adds((i + 1074) as nat, (j + 1074) as nat);
    lemma_pow2_adds((i + j + 1074) as nat, 1074);
    assert((i + 1074) as nat + (j + 1074) as nat == (i + j + 1074) as nat + 1074);
    let x = units(power_pattern(i));
    let y = units(power_pattern(j));
    assert(units(p) * units(q) <= x * y) by (nonlinear_arith)
        requires
            units(p) <= x,
            units(q) <= y,
    ;
    nearest_is_monotone(r, units(p) * units(q), one(), power_pattern(i + j));
}

/// A quotient is bounded by the quotients of the bounds.
pub(crate) proof fn lemma_bound_quotient(r: nat, p: nat, q: nat, i: int, j: int)
    requires
        is_nearest(r, units(p) * one(), units(q)),
        -500 <= i <= 500,
        -500 <= j <= 500,
        q > 0,
    ensures
        at_most_power(p, i) && at_least_power(q, j) ==> at_most_power(r, i - j),
        at_least_power(p, i) && at_most_power(q, j) ==> at_least_power(r, i - j),
{
    lemma_units_of_power(i);
    lemma_units_of_power(j);
    lemma_units_of_power(i - j);
    units_are_ordered(p, power_pattern(i));
    units_are_ordered(q, power_pattern(j));
    units_are_ordered(0, q);
    lemma_pow2_adds((i - j + 1074) as nat, (j + 1074) as nat);
    lemma_pow2_adds((i + 1074) as nat, 1074);
    assert((i - j + 1074) as nat + (j + 1074) as nat == (i + 1074) as nat + 1074);
    let x = units(power_pattern(i));
    let y = units(power_pattern(j));
    let z = units(power_pattern(i - j));
    if units(p) <= x && units(q) >= y {
        assert(units(p) * one() <= z * units(q)) by (nonlinear_arith)
            requires
                units(p) <= x,
                units(q) >= y,
                x * one() == z * y,
        ;
    }
    if units(p) >= x && units(q) <= y {
        assert(units(p) * one() >= z * units(q)) by (nonlinear_arith)
            requires
                units(p) >= x,
                units(q) <= y,
                x * one() == z * y,
        ;
    }
    nearest_is_monotone(r, units(p) * one(), units(q), power_pattern(i - j));
}

/// A sum is at most twice the bound of its terms.
pub(crate) proof fn lemma_bound_sum(r: nat, p: nat, q: nat, i: int)
    requires
        is_nearest(r, units(p) + units(q), 1),
        at_most_power(p, i),
        at_most_power(q, i),
        -500 <= i <= 500,
    ensures
        at_most_power(r, i + 1),
{
    lemma_units_of_power(i);
    lemma_units_of_power(i + 1);
    units_are_ordered(p, power_pattern(i));
    units_are_ordered(q, power_pattern(i));
    lemma_pow2_unfold((i + 1 + 1074) as nat);
    assert((i + 1 + 1074 - 1) as nat == (i + 1074) as nat);
    nearest_is_monotone(r, units(p) + units(q), 1, power_pattern(i + 1));
}

/// The integer nearest to the number of a pattern, the greater one of two.
pub open spec fn round_half_up(p: nat) -> nat {
    (2 * units(p) + one()) / (2 * one())
}

proof fn lemma_half_up_above(p: nat, m: nat, k: nat)
    requires
        units(p) == m * pow2(k),
        k >= 1074,
    ensures
        round_half_up(p) == floor(p),
{
    lemma_floor_above(p, m, k);
    lemma_pow2_adds((k - 1074) as nat, 1074);
    lemma_pow2_pos(1074);
    let w = pow2((k - 1074) as nat);
    let v = m * w;
    assert((k - 1074) as nat + 1074 == k);
    assert(2 * units(p) + one() == v * (2 * one()) + one()) by (nonlinear_arith)
        requires
            units(p) == m * (w * one()),
            v == m * w,
    ;
    vstd::arithmetic::div_mod::lemma_fundamental_div_mod_converse(
        (2 * units(p) + one()) as int,
        (2 * one()) as int,
        v as int,
        one() as int,
    );
}

proof fn lemma_half_up_below(p: nat, m: nat, k: nat)
    requires
        units(p) == m * pow2(k),
        k < 1074,
    ensures
        round_half_up(p) == (2 * m + pow2((1074 - k) as nat)) / (2 * pow2((1074 - k) as nat)),
{
    lemma_pow2_adds(k, (1074 - k) as nat);
    let w = pow2((1074 - k) as nat);
    let x = pow2(k);
    lemma_pow2_pos(k);
    lemma_pow2_pos((1074 - k) as nat);
    assert(k + (1074 - k) as nat == 1074);
    assert(2 * units(p) + one() == x * (2 * m + w) && 2 * one() == x * (2 * w)) by (nonlinear_arith)
        requires
            units(p) == m * x,
            one() == x * w,
    ;
    vstd::arithmetic::div_mod::lemma_div_multiples_vanish_quotient(
        x as int,
        (2 * m + w) as int,
        (2 * w) as int,
    );
}

impl Binary64 {
    /// The nearest integer, the greater one of two, or the greatest integer of 64 bits below it.
    pub fn rounded_half_up(self) -> (r: u64)
        requires
            self.finite(),
        ensures
            r == if round_half_up(self@) <= u64::MAX {
                round_half_up(self@)
            } else {
                u64::MAX as nat
            },
    {
        proof {
            lemma2_to64();
            lemma2_to64_rest();
            lemma_pow2_pos(1074);
        }
        if self.bits == 0 {
            proof {
                vstd::arithmetic::div_mod::lemma_basic_div(one() as int, (2 * one()) as int);
            }
            return 0;
        }
        let (m, k): (u64, i32) = split(self.bits);
        if k >= 1074 {
            proof {
                lemma_half_up_above(self@, m as nat, k as nat);
            }
            return self.truncated();
        }
        proof {
            lemma_half_up_below(self@, m as nat, k as nat);
        }
        if k <= 1019 {
            proof {
                if k < 1019 {
                    lemma_pow2_strictly_increases(55, (1074 - k) as nat);
                }
                let w = pow2((1074 - k) as nat);
                vstd::arithmetic::div_mod::lemma_basic_div((2 * m + w) as int, (2 * w) as int);
            }
            return 0;
        }
        let w: u128 = power_of_two((1074 - k) as u32);
        proof {
            lemma_pow2_pos((1074 - k) as nat);
            if k > 1019 {
                lemma_pow2_strictly_increases((1074 - k) as nat, 55);
            }
        }
        let n: u128 = 2 * (m as u128) + w;
        let step: u128 = 2 * w;
        let r: u128 = n / step;
        assert(r <= n) by (nonlinear_arith)
            requires
                step > 0,
                r == n / step,
        ;
        r as u64
    }
}

/// Rounding keeps the order of fractions.
pub proof fn nearest_keeps_the_order_of_fractions(m: nat, c: nat, n: nat, d: nat)
    requires
        c > 0,
        d > 0,
        m * d <= n * c,
    ensures
        nearest(m, c) <= nearest(n, d),
{
    nearest_exists(m, c);
    nearest_exists(n, d);
    let p = nearest(m, c);
    let q = nearest(n, d);
    if q < p {
        units_are_ordered(q, (p - 1) as nat);
        units_are_ordered(q + 1, p);
        let a = units(q) + units(q + 1);
        let b = units((p - 1) as nat) + units(p);
        assert(2 * n <= a * d);
        assert(2 * m >= b * c);
        assert(2 * (n * c) <= a * (c * d)) by (nonlinear_arith)
            requires
                2 * n <= a * d,
        ;
        assert(2 * (m * d) >= b * (c * d)) by (nonlinear_arith)
            requires
                2 * m >= b * c,
        ;
        if q + 1 < p {
            assert(a < b);
            assert(a * (c * d) < b * (c * d)) by (nonlinear_arith)
                requires
                    a < b,
                    c > 0,
                    d > 0,
            ;
        } else {
            assert(a == b);
            assert(2 * (n * c) == a * (c * d) && 2 * (m * d) == b * (c * d));
            assert(2 * n == a * d) by (nonlinear_arith)
                requires
                    2 * (n * c) == a * (c * d),
                    c > 0,
            ;
            assert(2 * m == b * c) by (nonlinear_arith)
                requires
                    2 * (m * d) == b * (c * d),
                    d > 0,
            ;
            assert(p % 2 == 0 && q % 2 == 0);
        }
    }
}

/// The distance of two numbers.
pub open spec fn gap(a: int, b: int) -> nat {
    if a >= b {
        (a - b) as nat
    } else {
        (b - a) as nat
    }
}

/// The nearest number is near: it differs from `n / d` by no more than half of the last place of its
/// significand of 53 bits, nor of the smallest number.
pub proof fn the_nearest_is_near(n: nat, d: nat)
    requires
        d > 0,
        nearest(n, d) < INFINITY,
    ensures
        2 * BINADE * gap((units(nearest(n, d)) * d) as int, n as int) <= units(nearest(n, d)) * d
            + BINADE * d,
{
    nearest_exists(n, d);
    let p = nearest(n, d);
    let b = BINADE as nat;
    let u = units(p);
    lemma_units_step(p);
    let step = (units(p + 1) - u) as nat;
    // The step to the next number.
    assert(step * b <= u + b) by {
        if p >= b {
            let w = pow2((p / b - 1) as nat);
            let f = b + p % b;
            assert(u == f * w);
            assert(step == w);
            assert(w * b <= f * w) by (nonlinear_arith)
                requires
                    f >= b,
            ;
        } else {
            assert(step == 1);
        }
    }
    // The step from the one before.
    let back = if p > 0 {
        (u - units((p - 1) as nat)) as nat
    } else {
        0
    };
    assert(back <= step) by {
        if p > 0 {
            units_are_ordered((p - 1) as nat, p);
            lemma_units_step((p - 1) as nat);
            if p - 1 >= b {
                assert(p / b >= (p - 1) as nat / b) by (nonlinear_arith)
                    requires
                        p > 0,
                        b > 0,
                ;
                let lower = ((p - 1) as nat / b - 1) as nat;
                let upper = (p / b - 1) as nat;
                if lower < upper {
                    lemma_pow2_strictly_increases(lower, upper);
                }
            } else {
                lemma_pow2_pos((p / b - 1) as nat);
            }
        }
    }
    let x = u * d;
    let g = gap(x as int, n as int);
    assert(2 * n <= (2 * u + step) * d);
    assert((2 * u + step) * d == 2 * x + step * d) by (nonlinear_arith)
        requires
            x == u * d,
    ;
    if p > 0 {
        let t = units((p - 1) as nat);
        units_are_ordered((p - 1) as nat, p);
        assert(2 * n >= (t + u) * d);
        assert((t + u) * d == 2 * x - back * d) by (nonlinear_arith)
            requires
                x == u * d,
                t == u - back,
        ;
    } else {
        assert(x == 0) by (nonlinear_arith)
            requires
                x == u * d,
                u == 0,
        ;
    }
    assert(back * d <= step * d) by (nonlinear_arith)
        requires
            back <= step,
    ;
    assert(2 * g <= step * d);
    assert(b * (step * d) <= x + b * d) by (nonlinear_arith)
        requires
            step * b <= u + b,
            x == u * d,
    ;
    assert(2 * b * g <= b * (step * d)) by (nonlinear_arith)
        requires
            2 * g <= step * d,
    ;
}

/// An integer divided by one and multiplied by another is what it should be, but for one part in two
/// to the power of 50.
pub proof fn ratios_are_near(a: nat, b: nat, c: nat)
    requires
        a < 2 * BINADE,
        0 < b < 2 * BINADE,
        c < 2 * BINADE,
    ensures
        product(quotient(rounded(a), rounded(b)), rounded(c)) < INFINITY,
        0x4_0000_0000_0000 * gap(
            (units(product(quotient(rounded(a), rounded(b)), rounded(c))) * b) as int,
            (a * c * one()) as int,
        ) <= a * c * one(),
{
    let w = one();
    let big = BINADE as nat;
    let p = rounded(a);
    let r = rounded(b);
    let t = rounded(c);
    lemma2_to64();
    lemma2_to64_rest();
    lemma_pow2_pos(1074);
    small_integers_are_exact(a);
    small_integers_are_exact(b);
    small_integers_are_exact(c);
    nearest_exists(a * w, 1);
    nearest_exists(b * w, 1);
    nearest_exists(c * w, 1);
    lemma_bound_integer(p, a, 53);
    lemma_bound_integer(r, b, 53);
    lemma_bound_integer(t, c, 53);
    lemma_units_of_power(0);
    assert(b * w > 0) by (nonlinear_arith)
        requires
            b > 0,
            w > 0,
    ;
    let q = quotient(p, r);
    nearest_exists((a * w) * w, b * w);
    lemma_bound_quotient(q, p, r, 53, 0);
    lemma_units_of_power(53);
    let u = units(q);
    let s = product(q, t);
    nearest_exists(u * (c * w), w);
    lemma_bound_product(s, q, t, 53, 53);
    lemma_units_of_power(106);
    let v = units(s);
    let x = a * c * w;
    the_nearest_is_near((a * w) * w, b * w);
    the_nearest_is_near(u * (c * w), w);
    // The two errors, without the common factor.
    let g1 = gap((u * b) as int, (a * w) as int);
    let g2 = gap(v as int, (u * c) as int);
    assert(gap((u * (b * w)) as int, ((a * w) * w) as int) == g1 * w) by {
        lemma_gap_scaled(u * b, a * w, w);
        assert(u * (b * w) == (u * b) * w) by (nonlinear_arith);
    }
    assert(gap((v * w) as int, (u * (c * w)) as int) == g2 * w) by {
        lemma_gap_scaled(v, u * c, w);
        assert(u * (c * w) == (u * c) * w) by (nonlinear_arith);
    }
    assert(2 * big * g1 <= u * b + big * b) by (nonlinear_arith)
        requires
            2 * big * (g1 * w) <= u * (b * w) + big * (b * w),
            w > 0,
    ;
    assert(2 * big * g2 <= v + big) by (nonlinear_arith)
        requires
            2 * big * (g2 * w) <= v * w + big * w,
            w > 0,
    ;
    lemma_two_errors(a, b, c, w, big, u, v, g1, g2);
    if a == 0 || c == 0 {
        assert(x == 0) by (nonlinear_arith)
            requires
                x == a * c * w,
                a == 0 || c == 0,
        ;
        assert(v == 0) by {
            if a == 0 {
                assert((a * w) * w == 0) by (nonlinear_arith)
                    requires
                        a == 0,
                ;
                lemma_exact_is_nearest(0, 0, b * w);
                nearest_is_unique(0, 0, b * w);
                assert(u == 0);
            }
            assert(u * (c * w) == 0) by (nonlinear_arith)
                requires
                    u == 0 || c == 0,
            ;
            assert(units(0) * w == 0) by (nonlinear_arith)
                requires
                    units(0) == 0,
            ;
            lemma_exact_is_nearest(0, 0, w);
            nearest_is_unique(0, 0, w);
        }
        assert(v * b == 0) by (nonlinear_arith)
            requires
                v == 0,
        ;
    } else {
        assert(x >= w) by (nonlinear_arith)
            requires
                x == a * c * w,
                a >= 1,
                c >= 1,
                w > 0,
        ;
        lemma_pow2_adds(64, 64);
        lemma_pow2_adds(128, 64);
        lemma_pow2_strictly_increases(192, 1074);
        assert(b * c <= (2 * big) * (2 * big)) by (nonlinear_arith)
            requires
                b < 2 * big,
                c < 2 * big,
        ;
        assert((big + 3) * (b * c + b) <= w) by (nonlinear_arith)
            requires
                b * c <= (2 * big) * (2 * big),
                b < 2 * big,
                big == 0x10_0000_0000_0000,
                w >= 0x1_0000_0000_0000_0000 * 0x1_0000_0000_0000_0000 * 0x1_0000_0000_0000_0000,
        ;
    }
}

pub(crate) proof fn lemma_gap_scaled(a: nat, b: nat, w: nat)
    ensures
        gap((a * w) as int, (b * w) as int) == gap(a as int, b as int) * w,
{
    assert((a - b) * w == a * w - b * w && (b - a) * w == b * w - a * w) by (nonlinear_arith);
    if a >= b {
        assert(a * w >= b * w) by (nonlinear_arith)
            requires
                a >= b,
        ;
    } else {
        assert(a * w <= b * w) by (nonlinear_arith)
            requires
                a < b,
        ;
        if a * w == b * w {
            assert((b - a) * w == 0);
        }
    }
}

/// What the errors of a quotient and of a product make together.
proof fn lemma_two_errors(a: nat, b: nat, c: nat, w: nat, big: nat, u: nat, v: nat, g1: nat, g2: nat)
    requires
        big >= 4,
        g1 == gap((u * b) as int, (a * w) as int),
        g2 == gap(v as int, (u * c) as int),
        2 * big * g1 <= u * b + big * b,
        2 * big * g2 <= v + big,
    ensures
        2 * big * gap((v * b) as int, (a * c * w) as int) <= 6 * (a * c * w) + (big + 3) * (b * c + b),
{
    let x = a * c * w;
    let ub = u * b;
    let cub = c * ub;
    let vb = v * b;
    let g = gap(vb as int, x as int);
    assert(cub == (u * c) * b) by (nonlinear_arith)
        requires
            cub == c * ub,
            ub == u * b,
    ;
    assert(x == c * (a * w)) by (nonlinear_arith)
        requires
            x == a * c * w,
    ;
    // Not more than the sum of both.
    lemma_gap_scaled(v, u * c, b);
    lemma_gap_scaled(ub, a * w, c);
    assert(c * ub == ub * c && c * (a * w) == (a * w) * c) by (nonlinear_arith);
    assert(g <= g2 * b + g1 * c);
    assert(2 * big * (g2 * b) <= vb + big * b) by (nonlinear_arith)
        requires
            2 * big * g2 <= v + big,
            vb == v * b,
    ;
    assert(2 * big * (g1 * c) <= cub + big * (b * c)) by (nonlinear_arith)
        requires
            2 * big * g1 <= ub + big * b,
            cub == c * ub,
    ;
    // Bounds of the approximations themselves.
    assert(cub <= x + g1 * c);
    assert(2 * big * cub <= 2 * big * x + 2 * big * (g1 * c)) by (nonlinear_arith)
        requires
            cub <= x + g1 * c,
    ;
    let bc = b * c;
    assert(cub <= 2 * x + bc) by (nonlinear_arith)
        requires
            2 * big * cub <= 2 * big * x + cub + big * bc,
            big >= 4,
            bc >= 0,
            x >= 0,
            cub >= 0,
    ;
    assert(vb <= cub + g2 * b);
    assert(2 * big * vb <= 2 * big * cub + 2 * big * (g2 * b)) by (nonlinear_arith)
        requires
            vb <= cub + g2 * b,
    ;
    assert(vb <= 2 * cub + b) by (nonlinear_arith)
        requires
            2 * big * vb <= 2 * big * cub + vb + big * b,
            big >= 4,
            b >= 0,
            vb >= 0,
            cub >= 0,
    ;
    assert(2 * big * g <= 2 * big * (g2 * b) + 2 * big * (g1 * c)) by (nonlinear_arith)
        requires
            g <= g2 * b + g1 * c,
    ;
    assert((big + 3) * (bc + b) == big * bc + big * b + 3 * bc + 3 * b) by (nonlinear_arith);
}

/// The integer part of a number is not above it, and the next integer is.
pub proof fn truncation_takes_less_than_one(p: nat)
    ensures
        truncated_to_u64(p) * one() <= units(p),
        truncated_to_u64(p) < u64::MAX ==> units(p) < (truncated_to_u64(p) + 1) * one(),
        units(p) < 0x1_0000_0000_0000_0000 * one() ==> units(p) < (truncated_to_u64(p) + 1) * one(),
{
    let w = one();
    lemma_pow2_pos(1074);
    let u = units(p);
    let f = u / w;
    assert(f * w <= u && u < (f + 1) * w) by (nonlinear_arith)
        requires
            f == u / w,
            w > 0,
    ;
    let t = truncated_to_u64(p);
    assert(t * w <= f * w) by (nonlinear_arith)
        requires
            t <= f,
    ;
    if u < 0x1_0000_0000_0000_0000 * w {
        assert(f < 0x1_0000_0000_0000_0000) by (nonlinear_arith)
            requires
                f * w <= u,
                u < 0x1_0000_0000_0000_0000 * w,
                w > 0,
        ;
    }
}

/// Rounding half up moves a number by no more than a half.
pub proof fn rounding_half_up_moves_by_a_half(p: nat)
    ensures
        2 * gap((round_half_up(p) * one()) as int, units(p) as int) <= one(),
{
    let w = one();
    lemma_pow2_pos(1074);
    let u = units(p);
    let r = round_half_up(p);
    assert(2 * (r * w) <= 2 * u + w && 2 * u + w < 2 * (r * w) + 2 * w) by (nonlinear_arith)
        requires
            r == (2 * u + w) / (2 * w),
            w > 0,
    ;
}

/// The product of two numbers is exact where a pattern stands for it.
pub(crate) proof fn lemma_exact_product(p: nat, q: nat, r: nat)
    requires
        units(p) * units(q) == units(r) * one(),
        r <= INFINITY,
    ensures
        product(p, q) == r,
{
    lemma_pow2_pos(1074);
    lemma_exact_is_nearest(r, units(r) * one(), one());
    nearest_is_unique(r, units(r) * one(), one());
}

/// The sum of two numbers is exact where a pattern stands for it.
pub(crate) proof fn lemma_exact_sum(p: nat, q: nat, r: nat)
    requires
        units(r) == units(p) + units(q),
        r <= INFINITY,
    ensures
        sum(p, q) == r,
{
    lemma_exact_is_nearest(r, units(r), 1);
    nearest_is_unique(r, units(r), 1);
}

/// Nothing rounds to nothing.
pub(crate) proof fn lemma_zero_is_exact(d: nat)
    requires
        d > 0,
    ensures
        nearest(0, d) == 0,
        units(0) == 0,
{
    assert(units(0) * d == 0) by (nonlinear_arith)
        requires
            units(0) == 0,
    ;
    lemma_exact_is_nearest(0, 0, d);
    nearest_is_unique(0, 0, d);
}

/// A greater number has no smaller integer part.
pub proof fn truncation_is_monotone(p: nat, q: nat)
    requires
        p <= q,
    ensures
        truncated_to_u64(p) <= truncated_to_u64(q),
{
    lemma_pow2_pos(1074);
    units_are_ordered(p, q);
    let w = one();
    let u = units(p);
    let v = units(q);
    assert(u / w <= v / w) by (nonlinear_arith)
        requires
            u <= v,
            w > 0,
    ;
}

} // verus!
