//! How long to wait: between attempts, and before a download starts.

use vstd::arithmetic::power2::{lemma2_to64, lemma_pow2_pos, lemma_pow2_unfold, pow2};
use vstd::prelude::*;

use crate::binary64::{difference, gap, lemma_exact_product, lemma_exact_sum, lemma_gap_scaled,
    lemma_units_of_power, nearest, nearest_exists, nearest_is_monotone, nearest_keeps_order, one, power_pattern,
    product, quotient, round_half_up, rounded, rounding_half_up_moves_by_a_half, small_integers_are_exact, sum,
    the_nearest_is_near, units, units_are_ordered, Binary64, BINADE, INFINITY, SIGN};

verus! {

/// The pattern of one quarter.
pub const QUARTER: u64 = 0x3fd0_0000_0000_0000;

/// The pattern of one.
pub const ONE: u64 = 0x3ff0_0000_0000_0000;

/// The first attempt whose power of two is too great for a number.
pub const LAST_POWER: u32 = 1025;

/// The delay before the attempt after `attempt`: the base delay, doubled with each attempt but the
/// first, as far as the cap. From attempt 1025 on the doubling has no end, and it is the cap.
pub open spec fn backoff_units(attempt: nat, base: nat, cap: nat) -> nat {
    let grown = units(base) * pow2((attempt - 1) as nat);
    if attempt >= LAST_POWER || grown > units(cap) {
        units(cap)
    } else {
        grown
    }
}

/// The number twice as great has the pattern one binade up, or twice the pattern below the first.
proof fn lemma_doubled(p: nat)
    ensures
        p < BINADE ==> units(2 * p) == 2 * units(p),
        p >= BINADE ==> units(p + BINADE as nat) == 2 * units(p),
{
    lemma2_to64();
    let b = BINADE as nat;
    if p < b {
        if 2 * p >= b {
            assert((2 * p) / b == 1 && (2 * p) % b == 2 * p - b);
            assert((b + (2 * p - b)) * pow2(0) == 2 * p);
        }
    } else {
        let e = p / b;
        assert((p + b) / b == e + 1 && (p + b) % b == p % b);
        lemma_pow2_unfold(e);
        let f = b + p % b;
        let w = pow2((e - 1) as nat);
        assert(f * (2 * w) == 2 * (f * w)) by (nonlinear_arith);
    }
}

/// The delay before the attempt after `attempt`, without jitter.
pub fn backoff(attempt: u32, base: Binary64, cap: Binary64) -> (r: Binary64)
    requires
        attempt >= 1,
        base@ <= cap@,
        cap.finite(),
    ensures
        units(r@) == backoff_units(attempt as nat, base@, cap@),
        r@ <= cap@,
{
    if attempt >= LAST_POWER {
        return cap;
    }
    let mut bits: u64 = base.bits;
    let mut i: u32 = 1;
    proof {
        lemma2_to64();
        assert(units(base@) * pow2(0) == units(base@));
    }
    while i < attempt
        invariant
            1 <= i <= attempt < LAST_POWER,
            cap.finite(),
            bits <= cap.bits,
            units(bits as nat) == units(base@) * pow2((i - 1) as nat),
        decreases attempt - i,
    {
        let next: u64 = if bits < BINADE {
            2 * bits
        } else {
            bits + BINADE
        };
        let ghost u = units(base@);
        let ghost w = pow2((i - 1) as nat);
        proof {
            lemma_doubled(bits as nat);
            lemma_pow2_unfold(i as nat);
            assert(u * (2 * w) == 2 * (u * w)) by (nonlinear_arith);
            units_are_ordered(next as nat, cap@);
        }
        if next > cap.bits {
            proof {
                lemma_grows(u, i as nat, (attempt - 1) as nat);
                units_are_ordered(cap@, next as nat);
            }
            return cap;
        }
        bits = next;
        i = i + 1;
    }
    proof {
        units_are_ordered(bits as nat, cap@);
    }
    Binary64 { bits }
}

/// More doublings never make a number smaller.
proof fn lemma_grows(u: nat, i: nat, j: nat)
    requires
        i <= j,
    ensures
        u * pow2(i) <= u * pow2(j),
{
    if i < j {
        vstd::arithmetic::power2::lemma_pow2_strictly_increases(i, j);
    }
    let x = pow2(i);
    let y = pow2(j);
    assert(u * x <= u * y) by (nonlinear_arith)
        requires
            x <= y,
    ;
}

/// Each delay is twice the one before as long as the cap allows it, the first is the base delay,
/// and none is above the cap. A base so small that 1024 doublings do not reach the cap is the exception.
pub proof fn backoff_doubles(attempt: nat, base: nat, cap: nat)
    requires
        1 <= attempt,
        attempt + 1 < LAST_POWER || 2 * backoff_units(attempt, base, cap) >= units(cap),
        base <= cap,
    ensures
        backoff_units(1, base, cap) == units(base),
        backoff_units(attempt, base, cap) <= units(cap),
        backoff_units(attempt + 1, base, cap) == if 2 * backoff_units(attempt, base, cap) <= units(
            cap,
        ) {
            2 * backoff_units(attempt, base, cap)
        } else {
            units(cap)
        },
{
    lemma2_to64();
    units_are_ordered(base, cap);
    lemma_pow2_unfold(attempt);
    let u = units(base);
    let w = pow2((attempt - 1) as nat);
    assert(u * (2 * w) == 2 * (u * w)) by (nonlinear_arith);
    assert(u * pow2(0) == u);
}

/// The delay before the attempt after `attempt`: the backoff, and where the plan asks for jitter a
/// random part of it on top.
pub open spec fn jittered(delay: nat, jitter: nat, random: nat) -> nat {
    if jitter > 0 {
        sum(delay, product(random, jitter))
    } else {
        delay
    }
}

/// Adds jitter to a delay, `random` being a number drawn from zero to one.
pub fn add_jitter(delay: Binary64, jitter: Binary64, random: Binary64) -> (r: Binary64)
    requires
        delay.finite(),
        jitter.finite(),
        random.bits <= ONE,
    ensures
        r@ == jittered(delay@, jitter@, random@),
        r@ >= delay@,
        r@ <= INFINITY,
{
    if jitter.bits == 0 {
        return delay;
    }
    let extra: Binary64 = random_part(jitter, random);
    let r: Binary64 = delay.plus(extra);
    proof {
        nearest_is_monotone(r@, units(delay@) + units(extra@), 1, delay@);
    }
    r
}

/// A random part of a number is no more than all of it.
pub(crate) proof fn lemma_part_of_jitter(jitter: nat, random: nat)
    requires
        jitter <= INFINITY,
        random <= ONE,
    ensures
        product(random, jitter) <= jitter,
{
    lemma_units_of_power(0);
    units_are_ordered(random, ONE as nat);
    lemma_pow2_pos(1074);
    let x = units(random);
    let y = units(jitter);
    assert(x * y <= y * one()) by (nonlinear_arith)
        requires
            x <= one(),
    ;
    nearest_exists(x * y, one());
    nearest_is_monotone(product(random, jitter), x * y, one(), jitter);
}

/// A random part of a finite number.
fn random_part(jitter: Binary64, random: Binary64) -> (r: Binary64)
    requires
        jitter.finite(),
        random.bits <= ONE,
    ensures
        r@ == product(random@, jitter@),
        r@ <= jitter@,
{
    proof {
        lemma_part_of_jitter(jitter@, random@);
    }
    random.times(jitter)
}

/// A delay as a retry event shows it: rounded to hundredths.
pub open spec fn hundredths(p: nat) -> nat {
    let scaled = product(p, rounded(100));
    if p >= INFINITY || scaled >= INFINITY {
        INFINITY as nat
    } else if scaled >= power_pattern(53) {
        quotient(scaled, rounded(100))
    } else {
        quotient(rounded(round_half_up(scaled)), rounded(100))
    }
}

/// Rounds a delay to hundredths; an endless one stays endless.
pub fn round_to_hundredths(delay: Binary64) -> (r: Binary64)
    requires
        delay@ <= INFINITY,
    ensures
        r@ == hundredths(delay@),
{
    if delay.bits == INFINITY {
        return delay;
    }
    let hundred: Binary64 = Binary64::from_integer(100);
    proof {
        lemma2_to64();
        crate::binary64::lemma_bound_integer(hundred@, 100, 7);
        lemma_units_of_power(0);
        lemma_units_of_power(53);
    }
    let scaled: Binary64 = delay.times(hundred);
    if scaled.bits >= INFINITY {
        return Binary64 { bits: INFINITY };
    }
    // From two to the power of 53 on every number is whole.
    if scaled.bits >= 0x4340_0000_0000_0000 {
        return scaled.divided_by(hundred);
    }
    proof {
        lemma_small_round(scaled@);
    }
    Binary64::from_integer(scaled.rounded_half_up()).divided_by(hundred)
}

/// Numbers below two to the power of 53 round to integers of 64 bits.
proof fn lemma_small_round(p: nat)
    requires
        p < power_pattern(53),
    ensures
        round_half_up(p) <= u64::MAX,
{
    lemma_units_of_power(53);
    vstd::arithmetic::power2::lemma2_to64_rest();
    vstd::arithmetic::power2::lemma_pow2_adds(53, 1074);
    units_are_ordered(p, power_pattern(53));
    lemma_pow2_pos(1074);
    let u = units(p);
    let w = one();
    let b = pow2(53);
    assert((2 * u + w) / (2 * w) <= b) by (nonlinear_arith)
        requires
            u < b * w,
            w > 0,
    ;
}

/// How long to wait before a download starts: the delay and a random part of the jitter, but never
/// less than nothing.
pub open spec fn pause_length(delay: Binary64, jitter: Binary64, random: Binary64) -> nat {
    let extra = if jitter.positive() {
        product(random@, jitter@)
    } else {
        0
    };
    if delay.bits < SIGN {
        sum(delay@, extra)
    } else if extra > delay.bits - SIGN {
        difference(extra, (delay.bits - SIGN) as nat)
    } else {
        0
    }
}

/// A slice and what is left after it make up the wait, for waits up to two to the power of 51
/// seconds: nothing is lost and nothing added.
pub proof fn slices_add_up(remaining: nat, slice: nat)
    requires
        remaining <= power_pattern(51),
        slice == if remaining <= QUARTER {
            remaining
        } else {
            QUARTER as nat
        },
    ensures
        units(difference(remaining, slice)) + units(slice) == units(remaining),
{
    if remaining <= QUARTER {
        assert(units(0) == 0);
        crate::binary64::lemma_exact_difference(remaining, remaining, 0);
    } else if remaining == power_pattern(51) {
        lemma_units_of_power(-2);
        lemma_units_of_power(51);
        assert(QUARTER == power_pattern(-2));
        vstd::arithmetic::power2::lemma_pow2_adds(53, 1072);
        vstd::arithmetic::power2::lemma2_to64_rest();
        let w = pow2(1072);
        let m = (pow2(53) - 1) as nat;
        let rest = crate::binary64::lemma_representable(m, 1072);
        assert(m * w + w == pow2(53) * w) by (nonlinear_arith)
            requires
                m == pow2(53) - 1,
        ;
        crate::binary64::lemma_exact_difference(remaining, QUARTER as nat, rest);
    } else {
        lemma_full_slice(remaining);
    }
}

proof fn lemma_full_slice(remaining: nat)
    requires
        QUARTER <= remaining < power_pattern(51),
    ensures
        units(difference(remaining, QUARTER as nat)) + units(QUARTER as nat) == units(remaining),
{
    let b = BINADE as nat;
    let k = (remaining / b - 1) as nat;
    let m = b + remaining % b;
    let c = (1072 - k) as nat;
    lemma_units_of_power(-2);
    units_are_ordered(QUARTER as nat, remaining);
    assert(QUARTER == power_pattern(-2));
    vstd::arithmetic::power2::lemma_pow2_adds(c, k);
    assert(c + k == 1072);
    let w = pow2(k);
    let x = pow2(c);
    lemma_pow2_pos(k);
    assert(m >= x) by (nonlinear_arith)
        requires
            m * w >= x * w,
            w > 0,
    ;
    let rest = crate::binary64::lemma_representable((m - x) as nat, k);
    assert((m - x) * w == m * w - x * w) by (nonlinear_arith);
    crate::binary64::lemma_exact_difference(remaining, QUARTER as nat, rest);
}

/// A wait that is taken in slices, so that cancellation is looked at in between.
#[derive(Clone, Copy, Debug)]
pub struct SegmentPause {
    pub remaining: Binary64,
}

impl SegmentPause {
    /// The wait before a download starts, `random` being a number drawn from zero to one.
    pub fn new(delay: Binary64, jitter: Binary64, random: Binary64) -> (r: Self)
        requires
            delay.bits % SIGN < INFINITY,
            jitter.bits % SIGN < INFINITY,
            random.bits <= ONE,
        ensures
            r.remaining@ == pause_length(delay, jitter, random),
            r.remaining@ <= INFINITY,
    {
        let extra: Binary64 = if jitter.is_positive() {
            random_part(jitter, random)
        } else {
            Binary64::zero()
        };
        let remaining: Binary64 = if delay.bits < SIGN {
            delay.plus(extra)
        } else if extra.bits > delay.bits - SIGN {
            extra.minus(Binary64 { bits: delay.bits - SIGN })
        } else {
            Binary64::zero()
        };
        SegmentPause { remaining }
    }

    /// The next slice to wait: a quarter of a second, or what is left; nothing when the wait is
    /// over or has been called off. An endless wait stays endless.
    pub fn next_slice(&mut self, cancelled: bool) -> (r: Option<Binary64>)
        requires
            old(self).remaining@ <= INFINITY,
        ensures
            final(self).remaining@ <= INFINITY,
            r is Some <==> old(self).remaining@ > 0 && !cancelled,
            r matches Some(slice) ==> {
                &&& slice@ == if old(self).remaining@ <= QUARTER {
                    old(self).remaining@
                } else {
                    QUARTER as nat
                }
                &&& final(self).remaining@ == if old(self).remaining@ == INFINITY {
                    INFINITY as nat
                } else {
                    difference(old(self).remaining@, slice@)
                }
                &&& final(self).remaining@ <= old(self).remaining@
            },
            r is None ==> final(self).remaining == old(self).remaining,
    {
        if self.remaining.bits == 0 || cancelled {
            return None;
        }
        let slice: Binary64 = if self.remaining.bits <= QUARTER {
            self.remaining
        } else {
            Binary64 { bits: QUARTER }
        };
        if self.remaining.bits != INFINITY {
            self.remaining = self.remaining.minus(slice);
        }
        Some(slice)
    }
}

/// A length in units and a random part of a number on top of it: their sum, rounded once more, is what it
/// should be but for one part in two to the power of 52.
pub(crate) proof fn lemma_random_part_on_top(start: nat, jitter: nat, random: nat)
    requires
        jitter < INFINITY,
        random <= ONE,
        nearest(start + units(product(random, jitter)), 1) < INFINITY,
    ensures
        BINADE * gap(
            (units(nearest(start + units(product(random, jitter)), 1)) * one()) as int,
            (start * one() + units(random) * units(jitter)) as int,
        ) <= units(nearest(start + units(product(random, jitter)), 1)) * one() + BINADE * one(),
{
    let w = one();
    let big = BINADE as nat;
    lemma_pow2_pos(1074);
    lemma_part_of_jitter(jitter, random);
    let x = product(random, jitter);
    let r = nearest(start + units(x), 1);
    the_nearest_is_near(units(random) * units(jitter), w);
    the_nearest_is_near(start + units(x), 1);
    nearest_exists(start + units(x), 1);
    nearest_is_monotone(r, start + units(x), 1, x);
    units_are_ordered(x, r);
    let u = units(r);
    let v = units(x);
    let y = units(random) * units(jitter);
    let g1 = gap((v * w) as int, y as int);
    let g2 = gap(u as int, (start + v) as int);
    assert(2 * big * g1 <= v * w + big * w);
    assert(2 * big * g2 <= u + big);
    lemma_gap_scaled(u, start + v, w);
    assert((start + v) * w == start * w + v * w) by (nonlinear_arith);
    let g = gap((u * w) as int, (start * w + y) as int);
    assert(g <= g2 * w + g1);
    assert(big * g <= u * w + big * w) by (nonlinear_arith)
        requires
            g <= g2 * w + g1,
            2 * big * g1 <= v * w + big * w,
            2 * big * g2 <= u + big,
            v <= u,
            w > 0,
            big > 0,
    ;
}

/// Jitter adds a random part of itself to a delay: nothing for a random number of zero, all of it for one,
/// never less for a greater one, and in between that part of it, but for one part in two to the power of
/// 52.
pub proof fn jitter_adds_its_random_part(delay: nat, jitter: nat, random: nat, greater: nat)
    requires
        delay < INFINITY,
        jitter < INFINITY,
        random <= greater <= ONE,
    ensures
        jittered(delay, 0, random) == delay,
        jittered(delay, jitter, 0) == delay,
        jittered(delay, jitter, ONE as nat) == nearest(units(delay) + units(jitter), 1),
        jittered(delay, jitter, random) <= jittered(delay, jitter, greater),
        jittered(delay, jitter, random) < INFINITY ==> BINADE * gap(
            (units(jittered(delay, jitter, random)) * one()) as int,
            (units(delay) * one() + units(random) * units(jitter)) as int,
        ) <= units(jittered(delay, jitter, random)) * one() + BINADE * one(),
{
    let w = one();
    lemma_pow2_pos(1074);
    lemma_units_of_power(0);
    assert(ONE == power_pattern(0));
    let u = units(jitter);
    assert(units(0) == 0);
    assert(0 * u == 0 && w * u == u * w) by (nonlinear_arith);
    assert(units(0) * w == 0) by (nonlinear_arith)
        requires
            units(0) == 0,
    ;
    lemma_exact_product(0, jitter, 0);
    lemma_exact_product(ONE as nat, jitter, jitter);
    lemma_exact_sum(delay, 0, delay);
    units_are_ordered(random, greater);
    assert(units(random) * u <= units(greater) * u) by (nonlinear_arith)
        requires
            units(random) <= units(greater),
    ;
    nearest_keeps_order(units(random) * u, units(greater) * u, w);
    units_are_ordered(product(random, jitter), product(greater, jitter));
    nearest_keeps_order(
        units(delay) + units(product(random, jitter)),
        units(delay) + units(product(greater, jitter)),
        1,
    );
    if jittered(delay, jitter, random) < INFINITY {
        if jitter > 0 {
            lemma_random_part_on_top(units(delay), jitter, random);
        } else {
            assert(units(random) * units(jitter) == 0) by (nonlinear_arith)
                requires
                    units(jitter) == 0,
            ;
        }
    }
}

/// A pause is its delay where there is no jitter, and nothing where that is negative; with jitter it is
/// never shorter for a greater random number, and the delay and that part of the jitter together, but for
/// one part in two to the power of 52. A negative delay takes from the jitter's part what it can.
pub proof fn a_pause_is_its_delay_and_a_random_part(
    delay: Binary64,
    jitter: Binary64,
    random: Binary64,
    greater: Binary64,
)
    requires
        delay.bits % SIGN < INFINITY,
        jitter.bits % SIGN < INFINITY,
        random.bits <= greater.bits <= ONE,
    ensures
        jitter.bits == 0 || jitter.bits >= SIGN ==> pause_length(delay, jitter, random) == if delay.bits
            < SIGN {
            delay@
        } else {
            0
        },
        pause_length(delay, jitter, random) <= pause_length(delay, jitter, greater),
        0 < jitter.bits < SIGN && delay.bits < SIGN && pause_length(delay, jitter, random) < INFINITY
            ==> BINADE * gap(
            (units(pause_length(delay, jitter, random)) * one()) as int,
            (units(delay@) * one() + units(random@) * units(jitter@)) as int,
        ) <= units(pause_length(delay, jitter, random)) * one() + BINADE * one(),
        0 < jitter.bits < SIGN && delay.bits >= SIGN ==> {
            let part = product(random@, jitter@);
            let taken = (delay.bits - SIGN) as nat;
            &&& part <= taken ==> pause_length(delay, jitter, random) == 0
            &&& part > taken ==> {
                let rest = units(pause_length(delay, jitter, random));
                2 * BINADE * gap((rest + units(taken)) as int, units(part) as int) <= rest + BINADE
            }
        },
{
    let w = one();
    lemma_pow2_pos(1074);
    assert(units(0) == 0);
    if delay.bits < SIGN {
        lemma_exact_sum(delay@, 0, delay@);
    }
    if 0 < jitter.bits < SIGN {
        let u = units(jitter@);
        units_are_ordered(random@, greater@);
        assert(units(random@) * u <= units(greater@) * u) by (nonlinear_arith)
            requires
                units(random@) <= units(greater@),
        ;
        nearest_keeps_order(units(random@) * u, units(greater@) * u, w);
        let a = product(random@, jitter@);
        let b = product(greater@, jitter@);
        units_are_ordered(a, b);
        lemma_part_of_jitter(jitter@, random@);
        lemma_part_of_jitter(jitter@, greater@);
        if delay.bits < SIGN {
            nearest_keeps_order(units(delay@) + units(a), units(delay@) + units(b), 1);
            if pause_length(delay, jitter, random) < INFINITY {
                lemma_random_part_on_top(units(delay@), jitter@, random@);
            }
        } else {
            let d = (delay.bits - SIGN) as nat;
            units_are_ordered(d, a);
            units_are_ordered(d, b);
            if a > d {
                let n = (units(a) - units(d)) as nat;
                nearest_keeps_order(n, (units(b) - units(d)) as nat, 1);
                nearest_exists(n, 1);
                nearest_is_monotone(nearest(n, 1), n, 1, a);
                the_nearest_is_near(n, 1);
            }
        }
    }
}

/// A delay rounded to hundredths is the number nearest to a whole number of hundredths, and differs from
/// the delay by no more than six thousandths; the delays are those below two to the power of 40.
pub proof fn hundredths_are_near(p: nat)
    requires
        p < power_pattern(40),
    ensures
        1000 * gap(units(hundredths(p)) as int, units(p) as int) <= 6 * one(),
        exists|n: nat| hundredths(p) == #[trigger] nearest(n * one() * one(), 100 * one()),
{
    let w = one();
    let big = BINADE as nat;
    lemma2_to64();
    vstd::arithmetic::power2::lemma2_to64_rest();
    lemma_pow2_pos(1074);
    vstd::arithmetic::power2::lemma_pow2_adds(64, 64);
    vstd::arithmetic::power2::lemma_pow2_strictly_increases(128, 1074);
    small_integers_are_exact(100);
    let hundred = rounded(100);
    nearest_exists(100 * w, 1);
    crate::binary64::lemma_bound_integer(hundred, 100, 7);
    lemma_units_of_power(0);
    lemma_units_of_power(40);
    lemma_units_of_power(47);
    lemma_units_of_power(53);
    vstd::arithmetic::power2::lemma_pow2_adds(40, 1074);
    units_are_ordered(p, power_pattern(40));
    let u = units(p);
    let s = product(p, hundred);
    nearest_exists(u * (100 * w), w);
    crate::binary64::lemma_bound_product(s, p, hundred, 40, 7);
    units_are_ordered(s, power_pattern(53));
    let v = units(s);
    the_nearest_is_near(u * (100 * w), w);
    lemma_gap_scaled(v, 100 * u, w);
    assert(u * (100 * w) == (100 * u) * w) by (nonlinear_arith);
    let g1 = gap(v as int, (100 * u) as int);
    assert(2 * big * g1 <= v + big) by (nonlinear_arith)
        requires
            2 * big * (g1 * w) <= v * w + big * w,
            w > 0,
    ;
    rounding_half_up_moves_by_a_half(s);
    let n = round_half_up(s);
    let g2 = gap((n * w) as int, v as int);
    lemma_units_of_power(47);
    vstd::arithmetic::power2::lemma_pow2_adds(47, 1074);
    units_are_ordered(s, power_pattern(47));
    assert(v <= 0x8000_0000_0000 * w) by {
        assert(pow2(47) == 0x8000_0000_0000);
        assert(pow2(1121) == pow2(47) * pow2(1074));
    }
    assert(n < 2 * big) by (nonlinear_arith)
        requires
            2 * (n * w) <= 2 * v + w,
            v <= 0x8000_0000_0000 * w,
            big == 0x10_0000_0000_0000,
            w > 0,
    ;
    small_integers_are_exact(n);
    let h = hundredths(p);
    assert(h == quotient(rounded(n), hundred));
    assert(h == nearest(n * w * w, 100 * w));
    nearest_exists(n * w, 1);
    crate::binary64::lemma_bound_integer(rounded(n), n, 53);
    nearest_exists(n * w * w, 100 * w);
    crate::binary64::lemma_bound_quotient(h, rounded(n), hundred, 53, 0);
    the_nearest_is_near(n * w * w, 100 * w);
    let x = units(h);
    let g3 = gap((100 * x) as int, (n * w) as int);
    lemma_gap_scaled(100 * x, n * w, w);
    assert(x * (100 * w) == (100 * x) * w) by (nonlinear_arith);
    assert(2 * big * g3 <= 100 * x + 100 * big) by (nonlinear_arith)
        requires
            2 * big * (g3 * w) <= x * (100 * w) + big * (100 * w),
            w > 0,
    ;
    let g = gap(x as int, u as int);
    assert(100 * g <= g1 + g2 + g3);
    assert(1000 * g <= 6 * w) by (nonlinear_arith)
        requires
            100 * g <= g1 + g2 + g3,
            2 * big * g1 <= v + big,
            2 * g2 <= w,
            2 * big * g3 <= 100 * x + 100 * big,
            100 * x <= n * w + g3,
            n * w <= v + g2,
            v <= 0x8000_0000_0000 * w,
            big == 0x10_0000_0000_0000,
            w >= 0x1_0000_0000_0000_0000 * 0x1_0000_0000_0000_0000,
    ;
}

/// The backoff is the base delay, doubled with each attempt before, or the cap where that is less; from
/// attempt 1025 on it is the cap. It never shrinks from one attempt to a later one.
pub proof fn the_backoff_grows_as_far_as_the_cap(attempt: nat, later: nat, base: nat, cap: nat)
    requires
        1 <= attempt <= later,
    ensures
        ({
            let delay = backoff_units(attempt, base, cap);
            let grown = units(base) * pow2((attempt - 1) as nat);
            &&& delay <= units(cap)
            &&& attempt < 1025 ==> delay <= grown && (delay == grown || delay == units(cap))
            &&& attempt >= 1025 ==> delay == units(cap)
            &&& delay <= backoff_units(later, base, cap)
        }),
{
    if attempt < later {
        vstd::arithmetic::power2::lemma_pow2_strictly_increases(
            (attempt - 1) as nat,
            (later - 1) as nat,
        );
    }
    let u = units(base);
    let v = pow2((attempt - 1) as nat);
    let w = pow2((later - 1) as nat);
    assert(u * v <= u * w) by (nonlinear_arith)
        requires
            v <= w,
    ;
}

/// A slice is a quarter of a second.
pub proof fn a_slice_is_a_quarter()
    ensures
        4 * units(QUARTER as nat) == one(),
        units(ONE as nat) == one(),
{
    lemma_units_of_power(-2);
    lemma_units_of_power(0);
    assert(QUARTER == power_pattern(-2));
    assert(ONE == power_pattern(0));
    lemma_pow2_unfold(1074);
    lemma_pow2_unfold(1073);
}

} // verus!
