//! How fast bytes arrive, and how long to wait so that they do not arrive too fast.

use vstd::arithmetic::power2::{lemma2_to64, lemma2_to64_rest, lemma_pow2_adds, lemma_pow2_pos,
    lemma_pow2_strictly_increases, lemma_pow2_unfold, pow2};
use vstd::prelude::*;

use crate::binary64::{gap, lemma_bound_integer, lemma_bound_product, lemma_bound_quotient, lemma_bound_sum,
    lemma_exact_product, lemma_exact_sum, lemma_gap_scaled, lemma_representable, lemma_units_of_power,
    nearest_exists, nearest_keeps_order, nearest_keeps_the_order_of_fractions, one, product, quotient,
    ratios_are_near, rounded, rounded_is_monotone, small_integers_are_exact, sum, the_nearest_is_near,
    truncated_to_u64, truncation_is_monotone, truncation_takes_less_than_one, units, units_are_ordered,
    Binary64, BINADE, INFINITY};

verus! {

/// The pattern of one half.
pub const HALF: u64 = 0x3fe0_0000_0000_0000;

/// The longest pause, in milliseconds, before cancellation is looked at again.
pub const LONGEST_PAUSE_MS: u64 = 250;

/// Bytes per second over `elapsed_ms` milliseconds; zero where no time has passed.
pub open spec fn average(total_bytes: nat, elapsed_ms: nat) -> nat {
    if elapsed_ms == 0 {
        0
    } else {
        quotient(rounded(total_bytes), quotient(rounded(elapsed_ms), rounded(1000)))
    }
}

/// Whole bytes per second over a window of `ms` milliseconds.
pub open spec fn instant(bytes: nat, ms: nat) -> nat {
    truncated_to_u64(product(quotient(rounded(bytes), rounded(ms)), rounded(1000)))
}

/// The mean of two rates, in whole bytes per second.
pub open spec fn mean(a: nat, b: nat) -> nat {
    truncated_to_u64(sum(product(rounded(a), HALF as nat), product(rounded(b), HALF as nat)))
}

/// Bytes per second over `elapsed_ms` milliseconds; zero where no time has passed.
pub fn average_bps(total_bytes: u64, elapsed_ms: u64) -> (r: Binary64)
    ensures
        r@ == average(total_bytes as nat, elapsed_ms as nat),
        r.finite(),
{
    if elapsed_ms == 0 {
        return Binary64::zero();
    }
    let total: Binary64 = Binary64::from_integer(total_bytes);
    let elapsed: Binary64 = Binary64::from_integer(elapsed_ms);
    let thousand: Binary64 = Binary64::from_integer(1000);
    proof {
        lemma2_to64();
        lemma2_to64_rest();
        lemma_bound_integer(total@, total_bytes as nat, 64);
        lemma_bound_integer(elapsed@, elapsed_ms as nat, 64);
        lemma_bound_integer(thousand@, 1000, 10);
        lemma_units_of_power(0);
    }
    let seconds: Binary64 = elapsed.divided_by(thousand);
    proof {
        lemma_bound_quotient(seconds@, elapsed@, thousand@, 0, 10);
        lemma_bound_quotient(seconds@, elapsed@, thousand@, 64, 0);
        lemma_units_of_power(-10);
        lemma_units_of_power(64);
    }
    let r: Binary64 = total.divided_by(seconds);
    proof {
        lemma_bound_quotient(r@, total@, seconds@, 64, -10);
        lemma_units_of_power(74);
    }
    r
}

/// Whole bytes per second over a window.
fn instant_bps(bytes: u64, ms: u64) -> (r: u64)
    requires
        ms > 0,
    ensures
        r == instant(bytes as nat, ms as nat),
{
    let a: Binary64 = Binary64::from_integer(bytes);
    let b: Binary64 = Binary64::from_integer(ms);
    let thousand: Binary64 = Binary64::from_integer(1000);
    proof {
        lemma2_to64();
        lemma2_to64_rest();
        lemma_bound_integer(a@, bytes as nat, 64);
        lemma_bound_integer(b@, ms as nat, 64);
        lemma_bound_integer(thousand@, 1000, 10);
        lemma_units_of_power(0);
    }
    let per_ms: Binary64 = a.divided_by(b);
    proof {
        lemma_bound_quotient(per_ms@, a@, b@, 64, 0);
        lemma_units_of_power(64);
    }
    let per_second: Binary64 = per_ms.times(thousand);
    proof {
        lemma_bound_product(per_second@, per_ms@, thousand@, 64, 10);
        lemma_units_of_power(74);
    }
    per_second.truncated()
}

/// The mean of two rates.
fn mean_bps(a: u64, b: u64) -> (r: u64)
    ensures
        r == mean(a as nat, b as nat),
{
    let x: Binary64 = Binary64::from_integer(a);
    let y: Binary64 = Binary64::from_integer(b);
    let half: Binary64 = Binary64 { bits: HALF };
    let u: Binary64 = x.times(half);
    let v: Binary64 = y.times(half);
    proof {
        lemma2_to64_rest();
        lemma_bound_integer(x@, a as nat, 64);
        lemma_bound_integer(y@, b as nat, 64);
        lemma_bound_product(u@, x@, half@, 64, 0);
        lemma_bound_product(v@, y@, half@, 64, 0);
        lemma_units_of_power(64);
    }
    let w: Binary64 = u.plus(v);
    proof {
        lemma_bound_sum(w@, u@, v@, 64);
        lemma_units_of_power(65);
    }
    w.truncated()
}

/// Counts received bytes and keeps a smoothed rate between samples.
#[derive(Clone, Copy, Debug)]
pub struct SpeedTracker {
    pub total_bytes: u64,
    pub last_snapshot_bytes: u64,
    pub last_snapshot_ms: u64,
    pub smoothed_bps: u64,
}

impl SpeedTracker {
    /// The bytes received since the last sample.
    pub open spec fn window_bytes(self) -> nat {
        if self.total_bytes >= self.last_snapshot_bytes {
            (self.total_bytes - self.last_snapshot_bytes) as nat
        } else {
            0
        }
    }

    /// Whether a sample at `now_ms` closes a window that an earlier one opened.
    pub open spec fn closes_window(self, now_ms: u64) -> bool {
        self.last_snapshot_ms != 0 && now_ms > self.last_snapshot_ms
    }

    /// The smoothed rate after a sample that closes a window: the rate of the window, or its mean
    /// with the rate before.
    pub open spec fn next_smoothed(self, now_ms: u64) -> nat {
        let rate = instant(self.window_bytes(), (now_ms - self.last_snapshot_ms) as nat);
        if self.smoothed_bps == 0 {
            rate
        } else {
            mean(self.smoothed_bps as nat, rate)
        }
    }

    /// The tracker after a sample at `now_ms`.
    pub open spec fn sampled(self, now_ms: u64) -> SpeedTracker {
        SpeedTracker {
            last_snapshot_bytes: self.total_bytes,
            last_snapshot_ms: now_ms,
            smoothed_bps: if self.closes_window(now_ms) {
                self.next_smoothed(now_ms) as u64
            } else {
                self.smoothed_bps
            },
            ..self
        }
    }

    /// The rate that a sample at `now_ms` gives: the smoothed one when it closes a window in which
    /// bytes arrived, else the average since the beginning.
    pub open spec fn sampled_rate(self, now_ms: u64) -> nat {
        if self.closes_window(now_ms) && self.next_smoothed(now_ms) != 0 {
            rounded(self.next_smoothed(now_ms))
        } else {
            average(self.total_bytes as nat, now_ms as nat)
        }
    }

    /// The rate to show at `elapsed_ms`: the smoothed one, or the average where there is none.
    pub open spec fn current_rate(self, elapsed_ms: u64) -> nat {
        if self.smoothed_bps != 0 {
            rounded(self.smoothed_bps as nat)
        } else {
            average(self.total_bytes as nat, elapsed_ms as nat)
        }
    }

    /// The tracker after more bytes were received; the count starts again at zero when it is full.
    pub open spec fn recorded(self, bytes: u64) -> SpeedTracker {
        SpeedTracker {
            total_bytes: ((self.total_bytes + bytes) % 0x1_0000_0000_0000_0000) as u64,
            ..self
        }
    }

    /// Whether there is no smoothed rate before the first sample. It holds of every tracker that is
    /// sampled by a clock which does not run back.
    pub open spec fn steady(self) -> bool {
        self.last_snapshot_ms == 0 ==> self.smoothed_bps == 0
    }

    /// A tracker that has seen nothing.
    pub fn new() -> (r: Self)
        ensures
            r.steady(),
            r.total_bytes == 0,
            r.last_snapshot_bytes == 0,
            r.last_snapshot_ms == 0,
            r.smoothed_bps == 0,
    {
        SpeedTracker { total_bytes: 0, last_snapshot_bytes: 0, last_snapshot_ms: 0, smoothed_bps: 0 }
    }

    /// Counts received bytes; the count starts again at zero when it is full.
    pub fn record(&mut self, bytes: u64)
        ensures
            *final(self) == old(self).recorded(bytes),
            old(self).steady() ==> final(self).steady(),
    {
        self.total_bytes = self.total_bytes.wrapping_add(bytes);
    }

    /// The bytes received so far.
    pub fn total_bytes(&self) -> (r: u64)
        ensures
            r == self.total_bytes,
    {
        self.total_bytes
    }

    /// The rate to show at `elapsed_ms`: the smoothed one, or the average where there is none.
    ///
    /// It leaves the sampling window as it is.
    pub fn current_bps(&self, elapsed_ms: u64) -> (r: Binary64)
        ensures
            r@ == self.current_rate(elapsed_ms),
            r.finite(),
    {
        if self.smoothed_bps != 0 {
            return Binary64::from_integer(self.smoothed_bps);
        }
        average_bps(self.total_bytes, elapsed_ms)
    }

    /// Takes a sample at `now_ms` and returns the rate.
    pub fn bytes_per_second(&mut self, now_ms: u64) -> (r: Binary64)
        ensures
            *final(self) == old(self).sampled(now_ms),
            old(self).closes_window(now_ms) ==> final(self).smoothed_bps == old(self).next_smoothed(
                now_ms,
            ),
            r@ == old(self).sampled_rate(now_ms),
            old(self).steady() && now_ms >= old(self).last_snapshot_ms ==> final(self).steady(),
            r.finite(),
    {
        let prev_ms: u64 = self.last_snapshot_ms;
        let prev_bytes: u64 = self.last_snapshot_bytes;
        self.last_snapshot_ms = now_ms;
        self.last_snapshot_bytes = self.total_bytes;
        if prev_ms == 0 || now_ms <= prev_ms {
            return average_bps(self.total_bytes, now_ms);
        }
        let bytes: u64 = if self.total_bytes >= prev_bytes {
            self.total_bytes - prev_bytes
        } else {
            0
        };
        let rate: u64 = instant_bps(bytes, now_ms - prev_ms);
        let next: u64 = if self.smoothed_bps == 0 {
            rate
        } else {
            mean_bps(self.smoothed_bps, rate)
        };
        self.smoothed_bps = next;
        if next == 0 {
            average_bps(self.total_bytes, now_ms)
        } else {
            Binary64::from_integer(next)
        }
    }

    /// Whether the bytes received so far keep to a limit in bytes per second.
    pub open spec fn within_limit(self, limit: Option<u64>, elapsed_ms: int) -> bool {
        match limit {
            Some(bps) => bps == 0 || self.total_bytes * 1000 <= bps * elapsed_ms,
            None => true,
        }
    }

    /// How many milliseconds to pause before more bytes are read: none where the bytes received
    /// keep to the limit, else no longer than it takes to keep to it again, nor than the longest
    /// pause. A limit of zero is none.
    pub fn throttle_pause_ms(&self, limit: Option<u64>, elapsed_ms: u64) -> (r: u64)
        ensures
            r <= LONGEST_PAUSE_MS,
            r == 0 <==> self.within_limit(limit, elapsed_ms as int),
            forall|w: u64|
                #![trigger self.within_limit(limit, elapsed_ms + w)]
                w < r ==> !self.within_limit(limit, elapsed_ms + w),
            r < LONGEST_PAUSE_MS ==> self.within_limit(limit, elapsed_ms + r),
    {
        let bps: u64 = match limit {
            Some(bps) => bps,
            None => 0,
        };
        if bps == 0 {
            return 0;
        }
        let need: u128 = (self.total_bytes as u128) * 1000;
        // The first millisecond at which the bytes received keep to the limit.
        let due: u128 = (need + (bps as u128 - 1)) / (bps as u128);
        proof {
            assert forall|x: int| x >= 0 implies #[trigger] self.within_limit(limit, x) == (x >= due) by {
                assert((need <= bps * x) == (x >= due)) by (nonlinear_arith)
                    requires
                        bps > 0,
                        x >= 0,
                        due == (need + (bps - 1)) / (bps as int),
                ;
            }
        }
        if elapsed_ms as u128 >= due {
            0
        } else if due - elapsed_ms as u128 >= LONGEST_PAUSE_MS as u128 {
            LONGEST_PAUSE_MS
        } else {
            (due - elapsed_ms as u128) as u64
        }
    }
}

/// Right after a sample the rate to show is the rate that the sample gave, if it was the first one or
/// came later than the one before.
pub proof fn a_read_gives_the_sample_before_it(tracker: SpeedTracker, now_ms: u64)
    requires
        tracker.steady(),
        tracker.last_snapshot_ms == 0 || now_ms > tracker.last_snapshot_ms,
    ensures
        tracker.sampled(now_ms).current_rate(now_ms) == tracker.sampled_rate(now_ms),
        tracker.sampled(now_ms).steady(),
{
}

/// Neither more bytes nor a sample by a clock that does not run back makes a tracker unsteady.
pub proof fn trackers_stay_steady(tracker: SpeedTracker, bytes: u64, now_ms: u64)
    requires
        tracker.steady(),
    ensures
        tracker.recorded(bytes).steady(),
        now_ms >= tracker.last_snapshot_ms ==> tracker.sampled(now_ms).steady(),
{
}

/// A sample moves the sampling window to its own time and to the bytes received by then, and a later
/// one closes the window that it opened.
pub proof fn samples_move_the_window(tracker: SpeedTracker, first_ms: u64, second_ms: u64)
    ensures
        tracker.sampled(first_ms).last_snapshot_ms == first_ms,
        tracker.sampled(first_ms).last_snapshot_bytes == tracker.total_bytes,
        tracker.sampled(first_ms).sampled(second_ms).last_snapshot_ms == second_ms,
        first_ms > 0 && second_ms > first_ms ==> tracker.sampled(first_ms).closes_window(second_ms),
{
}

/// The rate of a window is its bytes per second: times the length of the window it gives a thousand
/// times the bytes, but for less than one byte per second and one part in two to the power of 50.
pub proof fn a_window_has_the_rate_of_its_bytes(bytes: nat, ms: nat)
    requires
        bytes < 2 * BINADE,
        0 < ms < 2 * BINADE,
    ensures
        instant(bytes, ms) * ms <= 1000 * bytes + 1000 * bytes / 0x4_0000_0000_0000,
        instant(bytes, ms) * ms + ms + 1000 * bytes / 0x4_0000_0000_0000 >= 1000 * bytes,
{
    ratios_are_near(bytes, ms, 1000);
    let p = product(quotient(rounded(bytes), rounded(ms)), rounded(1000));
    let w = one();
    lemma_pow2_pos(1074);
    let v = units(p);
    let k: nat = 0x4_0000_0000_0000;
    let y = 1000 * bytes;
    assert(bytes * 1000 * w == y * w);
    let g = gap((v * ms) as int, (y * w) as int);
    // The rate itself is small enough to be an integer of 64 bits.
    assert(v <= v * ms) by (nonlinear_arith)
        requires
            ms >= 1,
    ;
    assert(v < 0x1_0000_0000_0000_0000 * w) by (nonlinear_arith)
        requires
            v <= y * w + g,
            k * g <= y * w,
            k == 0x4_0000_0000_0000,
            y < 0x40_0000_0000_0000 * 1000,
            w > 0,
    ;
    truncation_takes_less_than_one(p);
    let t = instant(bytes, ms);
    assert(t * ms * w <= v * ms) by (nonlinear_arith)
        requires
            t * w <= v,
    ;
    assert((t + 1) * ms * w > v * ms) by (nonlinear_arith)
        requires
            (t + 1) * w > v,
            ms > 0,
    ;
    let x = t * ms;
    assert(k * x <= k * y + y) by (nonlinear_arith)
        requires
            x * w <= y * w + g,
            k * g <= y * w,
            w > 0,
    ;
    assert((t + 1) * ms == x + ms) by (nonlinear_arith)
        requires
            x == t * ms,
    ;
    let z = x + ms;
    assert(k * z + y > k * y) by (nonlinear_arith)
        requires
            z * w > y * w - g,
            k * g <= y * w,
            w > 0,
            k > 0,
    ;
}

/// The rate of a window never falls with its bytes and never grows with its length.
pub proof fn the_rate_follows_bytes_and_time(fewer: nat, more: nat, short: nat, long: nat)
    requires
        fewer <= more,
        0 < short <= long,
    ensures
        instant(fewer, long) <= instant(more, short),
        average(fewer, long) <= average(more, short),
{
    let w = one();
    lemma_pow2_pos(1074);
    rounded_is_monotone(fewer, more);
    rounded_is_monotone(short, long);
    lemma_rounded_positive(short);
    lemma_rounded_positive(long);
    lemma_rounded_positive(1000);
    units_are_ordered(rounded(fewer), rounded(more));
    units_are_ordered(rounded(short), rounded(long));
    lemma_quotient_order(rounded(fewer), rounded(long), rounded(more), rounded(short));
    let lo = quotient(rounded(fewer), rounded(long));
    let hi = quotient(rounded(more), rounded(short));
    units_are_ordered(lo, hi);
    let k = units(rounded(1000));
    assert(units(lo) * k <= units(hi) * k) by (nonlinear_arith)
        requires
            units(lo) <= units(hi),
    ;
    nearest_keeps_order(units(lo) * k, units(hi) * k, w);
    truncation_is_monotone(product(lo, rounded(1000)), product(hi, rounded(1000)));
    // The average.
    lemma_quotient_order(rounded(short), rounded(1000), rounded(long), rounded(1000));
    let s = quotient(rounded(short), rounded(1000));
    let l = quotient(rounded(long), rounded(1000));
    lemma_seconds_positive(short);
    lemma_seconds_positive(long);
    units_are_ordered(s, l);
    units_are_ordered(0, s);
    lemma_quotient_order(rounded(fewer), l, rounded(more), s);
}

/// A positive integer is not rounded to zero.
proof fn lemma_rounded_positive(n: nat)
    requires
        n > 0,
    ensures
        rounded(n) > 0,
        units(rounded(n)) >= one(),
{
    lemma2_to64();
    small_integers_are_exact(1);
    rounded_is_monotone(1, n);
    units_are_ordered(rounded(1), rounded(n));
    units_are_ordered(0, rounded(n));
    lemma_pow2_pos(1074);
}

proof fn lemma_seconds_positive(ms: nat)
    requires
        ms > 0,
    ensures
        quotient(rounded(ms), rounded(1000)) > 0,
{
    lemma2_to64();
    lemma2_to64_rest();
    let w = one();
    lemma_rounded_positive(ms);
    lemma_rounded_positive(1000);
    lemma_pow2_pos(1074);
    nearest_exists(units(rounded(ms)) * w, units(rounded(1000)));
    small_integers_are_exact(1000);
    nearest_exists(1000 * w, 1);
    lemma_bound_integer(rounded(1000), 1000, 10);
    lemma_units_of_power(0);
    units_are_ordered(crate::binary64::power_pattern(0), rounded(ms));
    lemma_bound_quotient(quotient(rounded(ms), rounded(1000)), rounded(ms), rounded(1000), 0, 10);
    lemma_units_of_power(-10);
}

/// A greater number divided by a smaller one is not less.
proof fn lemma_quotient_order(a: nat, b: nat, c: nat, d: nat)
    requires
        units(a) <= units(c),
        0 < units(d) <= units(b),
    ensures
        quotient(a, b) <= quotient(c, d),
{
    let w = one();
    let x = units(a);
    let y = units(b);
    let m = units(c);
    let n = units(d);
    assert((x * w) * n <= (m * w) * y) by (nonlinear_arith)
        requires
            x <= m,
            n <= y,
    ;
    nearest_keeps_the_order_of_fractions(x * w, y, m * w, n);
}

/// The average is the bytes per second since the beginning: times the time it gives a thousand times the
/// bytes, but for one part in two to the power of 50.
pub proof fn the_average_is_bytes_per_second(bytes: nat, ms: nat)
    requires
        bytes < 2 * BINADE,
        0 < ms < 2 * BINADE,
    ensures
        average(bytes, ms) < INFINITY,
        0x4_0000_0000_0000 * gap(
            (units(average(bytes, ms)) * ms) as int,
            (1000 * bytes * one()) as int,
        ) <= 1000 * bytes * one(),
{
    let w = one();
    let big = BINADE as nat;
    lemma2_to64();
    lemma2_to64_rest();
    lemma_pow2_pos(1074);
    lemma_pow2_adds(64, 64);
    lemma_pow2_strictly_increases(128, 1074);
    small_integers_are_exact(bytes);
    small_integers_are_exact(ms);
    small_integers_are_exact(1000);
    nearest_exists(bytes * w, 1);
    nearest_exists(ms * w, 1);
    nearest_exists(1000 * w, 1);
    lemma_bound_integer(rounded(bytes), bytes, 53);
    lemma_bound_integer(rounded(ms), ms, 53);
    lemma_bound_integer(rounded(1000), 1000, 10);
    lemma_units_of_power(0);
    let q = quotient(rounded(ms), rounded(1000));
    nearest_exists((ms * w) * w, 1000 * w);
    lemma_bound_quotient(q, rounded(ms), rounded(1000), 0, 10);
    lemma_bound_quotient(q, rounded(ms), rounded(1000), 53, 0);
    lemma_units_of_power(-10);
    lemma_units_of_power(53);
    let u = units(q);
    units_are_ordered(0, q);
    let r = average(bytes, ms);
    nearest_exists((bytes * w) * w, u);
    lemma_bound_quotient(r, rounded(bytes), q, 53, -10);
    lemma_units_of_power(63);
    let v = units(r);
    the_nearest_is_near((ms * w) * w, 1000 * w);
    the_nearest_is_near((bytes * w) * w, u);
    let g1 = gap((u * 1000) as int, (ms * w) as int);
    assert(gap((u * (1000 * w)) as int, ((ms * w) * w) as int) == g1 * w) by {
        lemma_gap_scaled(u * 1000, ms * w, w);
        assert(u * (1000 * w) == (u * 1000) * w) by (nonlinear_arith);
    }
    assert(2 * big * g1 <= u * 1000 + big * 1000) by (nonlinear_arith)
        requires
            2 * big * (g1 * w) <= u * (1000 * w) + big * (1000 * w),
            w > 0,
    ;
    let g2 = gap((v * u) as int, ((bytes * w) * w) as int);
    if bytes == 0 {
        assert((bytes * w) * w == 0 && 1000 * bytes * w == 0) by (nonlinear_arith)
            requires
                bytes == 0,
        ;
        crate::binary64::lemma_zero_is_exact(u);
        assert(v * ms == 0) by (nonlinear_arith)
            requires
                v == 0,
        ;
    } else {
        lemma_average_errors(bytes, ms, w, big, u, v, g1, g2);
    }
}

/// What the errors of the two quotients of an average make together.
proof fn lemma_average_errors(
    t: nat,
    ms: nat,
    w: nat,
    big: nat,
    u: nat,
    v: nat,
    g1: nat,
    g2: nat,
)
    requires
        big == 0x10_0000_0000_0000,
        0 < t < 2 * big,
        0 < ms < 2 * big,
        w >= 0x1_0000_0000_0000_0000 * 0x1_0000_0000_0000_0000,
        u > 0,
        g1 == gap((u * 1000) as int, (ms * w) as int),
        g2 == gap((v * u) as int, ((t * w) * w) as int),
        2 * big * g1 <= u * 1000 + big * 1000,
        2 * big * g2 <= v * u + big * u,
    ensures
        0x4_0000_0000_0000 * gap((v * ms) as int, (1000 * t * w) as int) <= 1000 * t * w,
{
    let x = (t * w) * w;
    let vu = v * u;
    let mw = ms * w;
    assert(mw >= w && mw < 2 * big * w) by (nonlinear_arith)
        requires
            mw == ms * w,
            0 < ms < 2 * big,
            w > 0,
    ;
    assert(u <= mw) by (nonlinear_arith)
        requires
            1000 * u <= mw + g1,
            g1 >= 0,
            2 * big * g1 <= u * 1000 + big * 1000,
            big == 0x10_0000_0000_0000,
            mw >= w,
            w >= 0x1_0000_0000_0000_0000 * 0x1_0000_0000_0000_0000,
    ;
    assert(4000 * u >= w) by (nonlinear_arith)
        requires
            1000 * u + g1 >= mw,
            g1 >= 0,
            2 * big * g1 <= u * 1000 + big * 1000,
            big == 0x10_0000_0000_0000,
            mw >= w,
            w >= 0x1_0000_0000_0000_0000 * 0x1_0000_0000_0000_0000,
    ;
    assert(vu <= 2 * x + u) by (nonlinear_arith)
        requires
            vu <= x + g2,
            2 * big * g2 <= vu + big * u,
            big == 0x10_0000_0000_0000,
            x >= 0,
            u >= 0,
    ;
    assert(x >= w * w && x >= t * w) by (nonlinear_arith)
        requires
            x == (t * w) * w,
            t >= 1,
            w >= 1,
    ;
    assert(4000 * vu >= v * w) by (nonlinear_arith)
        requires
            vu == v * u,
            4000 * u >= w,
    ;
    // The errors, times the unit.
    let e = gap((v * mw) as int, (1000 * x) as int);
    lemma_gap_scaled(u * 1000, mw, v);
    assert((u * 1000) * v == 1000 * vu && mw * v == v * mw) by (nonlinear_arith)
        requires
            vu == v * u,
    ;
    assert(e <= g1 * v + 1000 * g2);
    assert(2 * big * (g1 * v) <= 1000 * vu + 1000 * (big * v)) by (nonlinear_arith)
        requires
            2 * big * g1 <= u * 1000 + big * 1000,
            vu == v * u,
    ;
    assert(2 * big * e <= 2 * big * (g1 * v) + 2 * big * (1000 * g2)) by (nonlinear_arith)
        requires
            e <= g1 * v + 1000 * g2,
    ;
    assert(2 * big * (1000 * g2) <= 1000 * vu + 1000 * (big * u)) by (nonlinear_arith)
        requires
            2 * big * g2 <= vu + big * u,
    ;
    assert(2 * big * e <= 2000 * vu + 1000 * (big * v) + 1000 * (big * u));
    // What is small beside the whole.
    assert(v * w <= 8000 * x + 4000 * u);
    assert(big * u <= big * mw);
    assert(big * mw <= 2 * big * big * w) by (nonlinear_arith)
        requires
            mw < 2 * big * w,
    ;
    assert(1000 * (2 * big * big * w) + 2000 * (2 * big * w) <= 500 * (w * w)) by (nonlinear_arith)
        requires
            big == 0x10_0000_0000_0000,
            w >= 0x1_0000_0000_0000_0000 * 0x1_0000_0000_0000_0000,
    ;
    assert(1000 * (big * v) <= 500 * x) by {
        assert(u <= 2 * big * w);
        assert(4000 * u <= w * w) by (nonlinear_arith)
            requires
                u <= 2 * big * w,
                big == 0x10_0000_0000_0000,
                w >= 0x1_0000_0000_0000_0000 * 0x1_0000_0000_0000_0000,
        ;
        assert(v * w <= 8001 * x);
        assert(1000 * (big * v) <= 500 * x) by (nonlinear_arith)
            requires
                v * w <= 8001 * x,
                big == 0x10_0000_0000_0000,
                w >= 0x1_0000_0000_0000_0000 * 0x1_0000_0000_0000_0000,
                x >= 0,
                v >= 0,
        ;
    }
    assert(2 * big * e <= 5500 * x);
    let g = gap((v * ms) as int, (1000 * t * w) as int);
    lemma_gap_scaled(v * ms, 1000 * t * w, w);
    assert((v * ms) * w == v * mw && (1000 * t * w) * w == 1000 * x) by (nonlinear_arith)
        requires
            mw == ms * w,
            x == (t * w) * w,
    ;
    assert(e == g * w);
    let y = 1000 * t * w;
    assert(0x4_0000_0000_0000 * g <= y) by (nonlinear_arith)
        requires
            2 * big * (g * w) <= 5500 * x,
            1000 * x == y * w,
            big == 0x10_0000_0000_0000,
            w > 0,
    ;
}

/// The mean of two rates is their mean, rounded down, as long as their sum has no more than 53 bits; and
/// neither comes first.
pub proof fn the_mean_lies_in_the_middle(a: nat, b: nat)
    ensures
        mean(a, b) == mean(b, a),
        a + b < 2 * BINADE ==> mean(a, b) == (a + b) / 2,
{
    let w = one();
    let h = HALF as nat;
    assert(units(product(rounded(a), h)) + units(product(rounded(b), h)) == units(
        product(rounded(b), h),
    ) + units(product(rounded(a), h)));
    if a + b < 2 * BINADE {
        let half = pow2(1073);
        lemma_units_of_power(-1);
        lemma_pow2_pos(1073);
        lemma_pow2_unfold(1074);
        assert(h == crate::binary64::power_pattern(-1));
        small_integers_are_exact(a);
        small_integers_are_exact(b);
        let p = lemma_representable(a, 1073);
        let q = lemma_representable(b, 1073);
        let r = lemma_representable(a + b, 1073);
        assert((a * w) * half == (a * half) * w && (b * w) * half == (b * half) * w && (a + b) * half
            == a * half + b * half) by (nonlinear_arith);
        lemma_exact_product(rounded(a), h, p);
        lemma_exact_product(rounded(b), h, q);
        lemma_exact_sum(p, q, r);
        let v = (a + b) * half;
        assert(v / w == (a + b) / 2) by (nonlinear_arith)
            requires
                v == (a + b) * half,
                w == 2 * half,
                half > 0,
        ;
    }
}

/// The bytes that came since the last sample, over the time since then, are what a sample adds: their rate
/// becomes the smoothed one, and where there was one before, its mean with that.
pub proof fn a_sample_measures_what_came_since_the_last(tracker: SpeedTracker, bytes: u64, now_ms: u64)
    requires
        tracker.last_snapshot_ms > 0,
        now_ms > tracker.last_snapshot_ms,
        now_ms - tracker.last_snapshot_ms < 2 * BINADE,
        tracker.last_snapshot_bytes + bytes == tracker.total_bytes,
        1000 * bytes < 0x4_0000_0000_0000,
        tracker.smoothed_bps < BINADE,
    ensures
        ({
            let ms = (now_ms - tracker.last_snapshot_ms) as nat;
            let after = tracker.sampled(now_ms);
            let next = after.smoothed_bps;
            &&& after.total_bytes == tracker.total_bytes
            &&& tracker.smoothed_bps == 0 ==> next * ms <= 1000 * bytes <= next * ms + ms
            &&& tracker.smoothed_bps > 0 ==> {
                let rate = instant(bytes as nat, ms);
                &&& rate * ms <= 1000 * bytes <= rate * ms + ms
                &&& 2 * next <= tracker.smoothed_bps + rate <= 2 * next + 1
            }
            &&& next > 0 ==> units(tracker.sampled_rate(now_ms)) == next * one()
            &&& next == 0 ==> tracker.sampled_rate(now_ms) == average(
                tracker.total_bytes as nat,
                now_ms as nat,
            )
        }),
{
    let ms = (now_ms - tracker.last_snapshot_ms) as nat;
    a_window_has_the_rate_of_its_bytes(bytes as nat, ms);
    let rate = instant(bytes as nat, ms);
    assert(rate <= 1000 * bytes) by (nonlinear_arith)
        requires
            rate * ms <= 1000 * bytes,
            ms >= 1,
    ;
    assert(tracker.window_bytes() == bytes);
    the_mean_lies_in_the_middle(tracker.smoothed_bps as nat, rate);
    small_integers_are_exact(tracker.next_smoothed(now_ms));
}

/// A sample that closes no window, and a read where there is no smoothed rate, give the average; a read
/// of a smoothed rate gives that rate.
pub proof fn other_rates_are_averages(tracker: SpeedTracker, now_ms: u64)
    ensures
        tracker.last_snapshot_ms == 0 || now_ms <= tracker.last_snapshot_ms ==> {
            &&& tracker.sampled_rate(now_ms) == average(tracker.total_bytes as nat, now_ms as nat)
            &&& tracker.sampled(now_ms).smoothed_bps == tracker.smoothed_bps
        },
        tracker.smoothed_bps == 0 ==> tracker.current_rate(now_ms) == average(
            tracker.total_bytes as nat,
            now_ms as nat,
        ),
        0 < tracker.smoothed_bps < 2 * BINADE ==> units(tracker.current_rate(now_ms))
            == tracker.smoothed_bps * one(),
        average(tracker.total_bytes as nat, 0) == 0,
{
    if tracker.smoothed_bps < 2 * BINADE {
        small_integers_are_exact(tracker.smoothed_bps as nat);
    }
}

/// Recording adds the bytes to those received, and touches nothing else.
pub proof fn recording_adds_the_bytes(tracker: SpeedTracker, bytes: u64)
    ensures
        tracker.total_bytes + bytes <= u64::MAX ==> tracker.recorded(bytes).total_bytes
            == tracker.total_bytes + bytes,
        tracker.total_bytes + bytes > u64::MAX ==> tracker.recorded(bytes).total_bytes
            == tracker.total_bytes + bytes - u64::MAX - 1,
        tracker.recorded(bytes).last_snapshot_bytes == tracker.last_snapshot_bytes,
        tracker.recorded(bytes).last_snapshot_ms == tracker.last_snapshot_ms,
        tracker.recorded(bytes).smoothed_bps == tracker.smoothed_bps,
{
}

/// A limit is kept exactly when no more bytes came in the time than it allows, a second having a thousand
/// milliseconds; no limit and a limit of zero are always kept.
pub proof fn a_limit_bounds_the_bytes_of_a_time(tracker: SpeedTracker, limit: u64, seconds: nat, ms: nat)
    requires
        limit > 0,
        ms < 1000,
    ensures
        tracker.within_limit(None, (1000 * seconds + ms) as int),
        tracker.within_limit(Some(0), (1000 * seconds + ms) as int),
        tracker.within_limit(Some(limit), (1000 * seconds) as int) <==> tracker.total_bytes <= limit
            * seconds,
        tracker.within_limit(Some(limit), (1000 * seconds + ms) as int) <==> 1000 * (
        tracker.total_bytes - limit * seconds) <= limit * ms,
{
    assert(limit * (1000 * seconds) == 1000 * (limit * seconds)) by (nonlinear_arith);
    assert(limit * (1000 * seconds + ms) == 1000 * (limit * seconds) + limit * ms) by (nonlinear_arith);
}

} // verus!
